use sandworld::material::Material;
use sandworld::world::SandWorld;

fn place(world: &mut SandWorld, x: usize, y: usize, material: Material) {
    world.set_brush(material);
    world.paint(x, y);
}

fn count(world: &SandWorld, material: Material) -> usize {
    let mut n = 0;
    for y in 0..world.height() {
        for x in 0..world.width() {
            if world.cell_at(x, y) == material {
                n += 1;
            }
        }
    }
    n
}

#[test]
fn free_fall() {
    let mut world = SandWorld::new(3, 3);
    place(&mut world, 1, 0, Material::Sand);
    world.tick();
    assert_eq!(world.cell_at(1, 0), Material::Empty);
    assert_eq!(world.cell_at(1, 1), Material::Sand);
    assert_eq!(count(&world, Material::Sand), 1);
    assert_eq!(count(&world, Material::Empty), 8);
}

#[test]
fn free_fall_by_the_two_phases() {
    let mut world = SandWorld::new(3, 3);
    place(&mut world, 1, 0, Material::Sand);
    world.update();
    assert_eq!(world.cell_at(1, 0), Material::Sand);
    assert_eq!(world.cell_at(1, 1), Material::Empty);
    world.commit_cells();
    assert_eq!(world.cell_at(1, 0), Material::Empty);
    assert_eq!(world.cell_at(1, 1), Material::Sand);
}

#[test]
fn sand_reaches_the_floor_and_rests() {
    let mut world = SandWorld::new(1, 4);
    place(&mut world, 0, 0, Material::Sand);
    for _ in 0..10 {
        world.tick();
    }
    assert_eq!(world.cell_at(0, 3), Material::Sand);
    assert_eq!(count(&world, Material::Sand), 1);
    assert_eq!(count(&world, Material::Empty), 3);
}

#[test]
fn blocked_pile() {
    let mut world = SandWorld::new(1, 2);
    place(&mut world, 0, 0, Material::Sand);
    place(&mut world, 0, 1, Material::Rock);
    world.tick();
    assert_eq!(world.cell_at(0, 0), Material::Sand);
    assert_eq!(world.cell_at(0, 1), Material::Rock);
}

#[test]
fn smoke_rises() {
    let mut world = SandWorld::new(3, 3);
    place(&mut world, 1, 2, Material::Smoke);
    world.tick();
    assert_eq!(world.cell_at(1, 2), Material::Empty);
    assert_eq!(world.cell_at(1, 1), Material::Smoke);
    assert_eq!(count(&world, Material::Smoke), 1);
}

#[test]
fn smoke_stays_under_the_ceiling() {
    let mut world = SandWorld::new(1, 3);
    place(&mut world, 0, 2, Material::Smoke);
    for _ in 0..5 {
        world.tick();
    }
    assert_eq!(world.cell_at(0, 0), Material::Smoke);
    assert_eq!(count(&world, Material::Smoke), 1);
}

#[test]
fn sand_and_water_change_places() {
    let mut world = SandWorld::new(1, 2);
    place(&mut world, 0, 0, Material::Sand);
    place(&mut world, 0, 1, Material::Water);
    world.tick();
    assert_eq!(world.cell_at(0, 0), Material::Water);
    assert_eq!(world.cell_at(0, 1), Material::Sand);
}

#[test]
fn water_does_not_sink_into_sand() {
    let mut world = SandWorld::new(1, 2);
    place(&mut world, 0, 0, Material::Water);
    place(&mut world, 0, 1, Material::Sand);
    world.tick();
    assert_eq!(world.cell_at(0, 0), Material::Water);
    assert_eq!(world.cell_at(0, 1), Material::Sand);
}

#[test]
fn sand_does_not_move_sideways() {
    let mut world = SandWorld::new(3, 1);
    place(&mut world, 1, 0, Material::Sand);
    world.tick();
    assert_eq!(world.cell_at(0, 0), Material::Empty);
    assert_eq!(world.cell_at(1, 0), Material::Sand);
    assert_eq!(world.cell_at(2, 0), Material::Empty);
}

#[test]
fn lateral_tie_break_distribution() {
    macroquad::rand::srand(7);
    let trials = 4000;
    let mut left = 0;
    let mut right = 0;
    for _ in 0..trials {
        let mut world = SandWorld::new(3, 1);
        place(&mut world, 1, 0, Material::Water);
        world.tick();
        assert_eq!(world.cell_at(1, 0), Material::Empty);
        if world.cell_at(0, 0) == Material::Water {
            assert_eq!(world.cell_at(2, 0), Material::Empty);
            left += 1;
        } else {
            assert_eq!(world.cell_at(2, 0), Material::Water);
            right += 1;
        }
    }
    assert_eq!(left + right, trials);
    assert!(left > trials * 2 / 5, "left {left}");
    assert!(right > trials * 2 / 5, "right {right}");
}

#[test]
fn diagonal_tie_break_distribution() {
    macroquad::rand::srand(11);
    let trials = 4000;
    let mut left = 0;
    for _ in 0..trials {
        let mut world = SandWorld::new(3, 2);
        place(&mut world, 1, 0, Material::Sand);
        place(&mut world, 1, 1, Material::Rock);
        world.tick();
        assert_eq!(world.cell_at(1, 0), Material::Empty);
        if world.cell_at(0, 1) == Material::Sand {
            left += 1;
        } else {
            assert_eq!(world.cell_at(2, 1), Material::Sand);
        }
    }
    assert!(left > trials * 2 / 5, "left {left}");
    assert!(trials - left > trials * 2 / 5, "left {left}");
}

#[test]
fn one_winner_per_destination() {
    macroquad::rand::srand(3);
    let mut left_won = 0;
    let trials = 2000;
    for _ in 0..trials {
        let mut world = SandWorld::new(3, 2);
        place(&mut world, 0, 0, Material::Water);
        place(&mut world, 1, 0, Material::Rock);
        place(&mut world, 2, 0, Material::Water);
        place(&mut world, 0, 1, Material::Rock);
        place(&mut world, 2, 1, Material::Rock);
        world.tick();
        assert_eq!(world.cell_at(1, 1), Material::Water);
        assert_eq!(world.cell_at(1, 0), Material::Rock);
        let left = world.cell_at(0, 0);
        let right = world.cell_at(2, 0);
        if left == Material::Empty {
            assert_eq!(right, Material::Water);
            left_won += 1;
        } else {
            assert_eq!(left, Material::Water);
            assert_eq!(right, Material::Empty);
        }
        assert_eq!(count(&world, Material::Water), 2);
    }
    assert!(left_won > trials * 2 / 5, "left won {left_won}");
    assert!(trials - left_won > trials * 2 / 5, "left won {left_won}");
}

#[test]
fn water_sinks_before_the_sand_above_follows() {
    let mut world = SandWorld::new(1, 3);
    place(&mut world, 0, 0, Material::Sand);
    place(&mut world, 0, 1, Material::Water);
    world.tick();
    assert_eq!(world.cell_at(0, 0), Material::Empty);
    assert_eq!(world.cell_at(0, 1), Material::Sand);
    assert_eq!(world.cell_at(0, 2), Material::Water);
    world.tick();
    assert_eq!(world.cell_at(0, 0), Material::Empty);
    assert_eq!(world.cell_at(0, 1), Material::Water);
    assert_eq!(world.cell_at(0, 2), Material::Sand);
}

#[test]
fn mass_is_conserved() {
    macroquad::rand::srand(99);
    let width = 12;
    let height = 9;
    let mut world = SandWorld::new(width, height);
    let kinds = [
        Material::Empty,
        Material::Sand,
        Material::Water,
        Material::Rock,
        Material::Smoke,
        Material::Empty,
        Material::Water,
    ];
    for y in 0..height {
        for x in 0..width {
            place(&mut world, x, y, kinds[(x * 3 + y * 5 + x * y) % kinds.len()]);
        }
    }
    let before: Vec<usize> = kinds.iter().map(|m| count(&world, *m)).collect();
    for _ in 0..60 {
        world.tick();
        let after: Vec<usize> = kinds.iter().map(|m| count(&world, *m)).collect();
        assert_eq!(before, after);
    }
}

#[test]
fn stale_intents_are_dropped_by_a_tick() {
    let mut world = SandWorld::new(1, 3);
    place(&mut world, 0, 0, Material::Sand);
    world.update();
    world.update();
    world.tick();
    assert_eq!(count(&world, Material::Sand), 1);
    assert_eq!(world.cell_at(0, 1), Material::Sand);
}

#[test]
fn commit_without_intents_changes_nothing() {
    let mut world = SandWorld::new(2, 2);
    place(&mut world, 0, 0, Material::Sand);
    world.commit_cells();
    assert_eq!(world.cell_at(0, 0), Material::Sand);
    assert_eq!(count(&world, Material::Empty), 3);
}

#[test]
fn empty_world_of_no_cells_ticks() {
    let mut world = SandWorld::new(0, 5);
    world.tick();
    assert!(!world.paint(0, 0));
    assert!(!world.is_empty(0, 0));
    let mut flat = SandWorld::new(4, 0);
    flat.tick();
    assert!(!flat.in_bounds(0, 0));
}
