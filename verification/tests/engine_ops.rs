use life_cubed::SimError;
use life_cubed::cell::{Cell, Color, Position};
use life_cubed::engine::SimulationEngine;
use life_cubed::rule::{BirthChance, ColorRule, NeighborRule};

const GREEN: Color = Color { r: 0, g: 255, b: 0 };
const RED: Color = Color { r: 255, g: 0, b: 0 };

fn classic_engine() -> SimulationEngine {
    SimulationEngine::new(
        NeighborRule::from_counts(vec![2, 3]),
        NeighborRule::from_counts(vec![3]),
        ColorRule { alive_color: GREEN, dead_color: RED },
    )
}

fn never() -> BirthChance {
    BirthChance { numer: 0, denom: 1 }
}

fn always() -> BirthChance {
    BirthChance { numer: 1, denom: 1 }
}

#[test]
fn queries_fail_before_initialize() {
    let mut e = classic_engine();
    assert_eq!(e.step().err(), Some(SimError::NotInitialized));
    assert_eq!(e.snapshot().err(), Some(SimError::NotInitialized));
    assert_eq!(e.get_cell(0, 0, 0).err(), Some(SimError::NotInitialized));
}

#[test]
fn initialize_rejects_nonpositive_dimensions() {
    let mut e = classic_engine();
    assert_eq!(e.initialize(0, 5, 5, never(), 1).err(), Some(SimError::InvalidDimension));
    assert_eq!(e.initialize(5, -1, 5, never(), 1).err(), Some(SimError::InvalidDimension));
    assert_eq!(e.snapshot().err(), Some(SimError::NotInitialized));
}

#[test]
fn get_cell_checks_bounds_after_initialize() {
    let mut e = classic_engine();
    e.initialize(4, 4, 4, never(), 9).unwrap();
    assert_eq!(e.get_cell(4, 0, 0).err(), Some(SimError::OutOfBounds));
    assert_eq!(e.get_cell(0, 0, -1).err(), Some(SimError::OutOfBounds));
    assert!(e.get_cell(3, 3, 3).is_ok());
}

#[test]
fn chance_zero_seeds_an_entirely_dead_grid() {
    let mut e = classic_engine();
    e.initialize(10, 10, 10, never(), 42).unwrap();
    let cells = e.snapshot().unwrap();
    assert_eq!(cells.len(), 1000);
    assert!(cells.iter().all(|c| !c.alive && c.color == RED));
}

#[test]
fn chance_one_seeds_an_entirely_alive_grid() {
    let mut e = classic_engine();
    e.initialize(10, 10, 10, always(), 42).unwrap();
    let cells = e.snapshot().unwrap();
    assert_eq!(cells.len(), 1000);
    assert!(cells.iter().all(|c| c.alive && c.color == GREEN));
}

#[test]
fn seeded_cells_sit_at_their_own_coordinates() {
    let mut e = classic_engine();
    e.initialize(2, 2, 2, always(), 7).unwrap();
    let cells = e.snapshot().unwrap();
    // Flat order is x-major: (x * height + y) * depth + z.
    let mut expected = Vec::new();
    for x in 0..2 {
        for y in 0..2 {
            for z in 0..2 {
                expected.push(Position { x, y, z });
            }
        }
    }
    let got: Vec<Position> = cells.iter().map(|c| c.position).collect();
    assert_eq!(got, expected);
}

#[test]
fn step_is_deterministic_from_equal_states() {
    let mut e1 = classic_engine();
    let mut e2 = classic_engine();
    e1.initialize(8, 8, 8, BirthChance { numer: 1, denom: 4 }, 123).unwrap();
    e2.initialize(8, 8, 8, BirthChance { numer: 1, denom: 4 }, 123).unwrap();
    assert_eq!(e1.snapshot().unwrap(), e2.snapshot().unwrap());
    e1.step().unwrap();
    e2.step().unwrap();
    assert_eq!(e1.snapshot().unwrap(), e2.snapshot().unwrap());
    e1.step().unwrap();
    e2.step().unwrap();
    assert_eq!(e1.snapshot().unwrap(), e2.snapshot().unwrap());
}

#[test]
fn all_dead_grid_stays_dead() {
    let mut e = classic_engine();
    e.initialize(4, 4, 4, never(), 5).unwrap();
    for _ in 0..5 {
        e.step().unwrap();
        let cells = e.snapshot().unwrap();
        assert!(cells.iter().all(|c| !c.alive));
    }
}

#[test]
fn a_single_seed_goes_extinct_in_one_tick() {
    let mut e = classic_engine();
    e.initialize(5, 5, 5, never(), 3).unwrap();
    if let Some(g) = &mut e.grid {
        g.set(
            2,
            2,
            2,
            Cell { position: Position { x: 2, y: 2, z: 2 }, alive: true, color: GREEN },
        )
        .unwrap();
    } else {
        panic!("engine not initialized");
    }
    assert!(e.get_cell(2, 2, 2).unwrap().alive);
    e.step().unwrap();
    // The seed has no neighbors (0 is not in the survival range {2, 3}) and
    // each of its 26 neighbors sees exactly one alive cell (1 is not in the
    // birth range {3}): the whole grid dies.
    let cells = e.snapshot().unwrap();
    assert_eq!(cells.len(), 125);
    assert!(cells.iter().all(|c| !c.alive && c.color == RED));
}

#[test]
fn a_two_by_two_block_is_a_still_life() {
    // In a depth-1 grid a 2x2 block is a still life under survival {2, 3}
    // and birth {3}: each block cell sees exactly 3 alive neighbors, and
    // every dead cell sees at most 2.
    let mut e = classic_engine();
    e.initialize(4, 4, 1, never(), 0).unwrap();
    let block = [(1, 1), (1, 2), (2, 1), (2, 2)];
    if let Some(g) = &mut e.grid {
        for &(x, y) in block.iter() {
            g.set(
                x,
                y,
                0,
                Cell { position: Position { x, y, z: 0 }, alive: true, color: GREEN },
            )
            .unwrap();
        }
    }
    e.step().unwrap();
    for x in 0..4 {
        for y in 0..4 {
            let cell = e.get_cell(x, y, 0).unwrap();
            assert_eq!(cell.alive, block.contains(&(x, y)));
        }
    }
}

#[test]
fn neighbor_rule_admits_its_members_only() {
    let r = NeighborRule::from_counts(vec![2, 3]);
    assert!(r.admits(2));
    assert!(r.admits(3));
    assert!(!r.admits(0));
    assert!(!r.admits(1));
    assert!(!r.admits(4));
    assert!(!r.admits(26));
    let empty = NeighborRule::from_counts(vec![]);
    assert!(!empty.admits(0));
}

#[test]
fn colors_follow_the_color_rule_after_a_step() {
    let mut e = classic_engine();
    e.initialize(3, 3, 3, always(), 11).unwrap();
    e.step().unwrap();
    let cells = e.snapshot().unwrap();
    for c in cells.iter() {
        if c.alive {
            assert_eq!(c.color, GREEN);
        } else {
            assert_eq!(c.color, RED);
        }
    }
}
