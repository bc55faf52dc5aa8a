use sandworld::material::{Cell, Material, MovementKind, MovementMask};
use sandworld::chance::break_tie;
use sandworld::world::SandWorld;

#[test]
fn new_world_is_empty() {
    let world = SandWorld::new(4, 3);
    assert_eq!(world.width(), 4);
    assert_eq!(world.height(), 3);
    for y in 0..3 {
        for x in 0..4 {
            assert_eq!(world.cell_at(x, y), Material::Empty);
            assert!(world.is_empty(x, y));
        }
    }
    assert_eq!(world.density(), 0);
    assert_eq!(world.brush(), "Sand");
    assert_eq!(world.brush_material(), Material::Sand);
}

#[test]
fn flat_index_is_row_major() {
    let world = SandWorld::new(3, 3);
    assert_eq!(world.get_index_by_pos(0, 0), 0);
    assert_eq!(world.get_index_by_pos(1, 2), 7);
    assert_eq!(world.get_index_by_pos(2, 2), 8);
    let wide = SandWorld::new(5, 2);
    assert_eq!(wide.get_index_by_pos(4, 1), 9);
    assert_eq!(wide.get_index_by_pos(0, 1), 5);
}

#[test]
fn in_bounds_is_exact() {
    let world = SandWorld::new(3, 2);
    assert!(world.in_bounds(0, 0));
    assert!(world.in_bounds(2, 1));
    assert!(!world.in_bounds(3, 0));
    assert!(!world.in_bounds(0, 2));
    assert!(!world.in_bounds(usize::MAX, 0));
    assert!(!world.in_bounds(0, usize::MAX));
}

#[test]
fn outside_is_never_empty() {
    let world = SandWorld::new(3, 2);
    assert!(world.is_empty(2, 1));
    assert!(!world.is_empty(3, 0));
    assert!(!world.is_empty(3, 1));
    assert!(!world.is_empty(0, 2));
    assert!(!world.is_empty(usize::MAX, usize::MAX));
}

#[test]
fn set_reports_a_change_of_material() {
    let mut world = SandWorld::new(2, 2);
    assert!(world.set_cell_by_pos(1, 1, Cell::sand()));
    assert!(!world.set_cell_by_pos(1, 1, Cell::sand()));
    assert!(world.set_cell_by_pos(1, 1, Cell::rock()));
    assert_eq!(world.get_cell_by_pos(1, 1), Cell::rock());
    assert_eq!(world.get_cell_by_index(3), Cell::rock());
    assert_eq!(world.cell_at(0, 1), Material::Empty);
    assert!(!world.set_cell_by_pos(0, 1, Cell::empty()));
}

#[test]
fn paint_uses_the_brush() {
    let mut world = SandWorld::new(3, 3);
    assert!(world.paint(1, 1));
    assert_eq!(world.cell_at(1, 1), Material::Sand);
    assert_eq!(world.get_cell_by_pos(1, 1), Cell::sand());
    assert!(!world.paint(1, 1));
    world.set_brush(Material::Rock);
    assert_eq!(world.brush(), "Rock");
    assert!(world.paint(1, 1));
    assert_eq!(world.cell_at(1, 1), Material::Rock);
    world.set_brush(Material::Empty);
    assert!(world.paint(1, 1));
    assert!(world.is_empty(1, 1));
}

#[test]
fn paint_outside_does_nothing() {
    let mut world = SandWorld::new(3, 3);
    assert!(!world.paint(3, 0));
    assert!(!world.paint(0, 3));
    assert!(!world.paint(usize::MAX, 1));
    for y in 0..3 {
        for x in 0..3 {
            assert_eq!(world.cell_at(x, y), Material::Empty);
        }
    }
}

#[test]
fn density_counts_new_water() {
    let mut world = SandWorld::new(3, 3);
    world.set_brush(Material::Water);
    assert_eq!(world.brush(), "Water");
    assert!(world.paint(0, 0));
    assert_eq!(world.density(), 1);
    assert!(!world.paint(0, 0));
    assert_eq!(world.density(), 1);
    assert!(world.paint(1, 0));
    assert_eq!(world.density(), 2);
    assert!(!world.paint(9, 9));
    assert_eq!(world.density(), 2);
    world.set_brush(Material::Sand);
    assert!(world.paint(2, 0));
    assert_eq!(world.density(), 2);
}

#[test]
fn brush_names() {
    let mut world = SandWorld::new(1, 1);
    let names = [
        (Material::Empty, "Empty"),
        (Material::Sand, "Sand"),
        (Material::Water, "Water"),
        (Material::Rock, "Rock"),
        (Material::Smoke, "Smoke"),
    ];
    for (material, name) in names {
        world.set_brush(material);
        assert_eq!(world.brush(), name);
        assert_eq!(material.name(), name);
        assert_eq!(world.brush_material(), material);
    }
}

#[test]
fn masks_of_the_materials() {
    let all = [
        MovementKind::Down,
        MovementKind::DownSide,
        MovementKind::Side,
        MovementKind::Up,
        MovementKind::UpSide,
    ];
    let held = |m: Material| -> Vec<bool> {
        all.iter().map(|k| m.movement_mask().contains(*k)).collect()
    };
    assert_eq!(held(Material::Empty), vec![false, false, false, false, false]);
    assert_eq!(held(Material::Rock), vec![false, false, false, false, false]);
    assert_eq!(held(Material::Sand), vec![true, true, false, false, false]);
    assert_eq!(held(Material::Water), vec![true, true, true, false, false]);
    assert_eq!(held(Material::Smoke), vec![false, false, false, true, true]);
    assert!(Material::Empty.movement_mask().is_none());
    assert!(Material::Rock.movement_mask().is_none());
    assert!(!Material::Sand.movement_mask().is_none());
    assert_eq!(MovementMask::none(), Material::Empty.movement_mask());
}

#[test]
fn cells_carry_the_mask_of_their_material() {
    assert_eq!(Cell::empty(), Cell::of(Material::Empty));
    assert_eq!(Cell::sand(), Cell::of(Material::Sand));
    assert_eq!(Cell::water(), Cell::of(Material::Water));
    assert_eq!(Cell::rock(), Cell::of(Material::Rock));
    assert_eq!(Cell::smoke(), Cell::of(Material::Smoke));
    assert_eq!(Cell::water().mask, Material::Water.movement_mask());
    assert_eq!(Cell::smoke().material, Material::Smoke);
}

#[test]
fn only_sand_displaces_and_only_water() {
    let all = [
        Material::Empty,
        Material::Sand,
        Material::Water,
        Material::Rock,
        Material::Smoke,
    ];
    for a in all {
        for b in all {
            assert_eq!(
                a.can_displace(b),
                a == Material::Sand && b == Material::Water
            );
        }
    }
}

#[test]
fn tie_break_by_draw() {
    assert_eq!(break_tie(true, true, 0), (true, false));
    assert_eq!(break_tie(true, true, 1), (false, true));
    assert_eq!(break_tie(true, false, 1), (true, false));
    assert_eq!(break_tie(true, false, 0), (true, false));
    assert_eq!(break_tie(false, true, 0), (false, true));
    assert_eq!(break_tie(false, false, 0), (false, false));
    assert_eq!(break_tie(false, false, 1), (false, false));
}

#[test]
fn rules_fail_at_the_edges() {
    let mut world = SandWorld::new(1, 1);
    world.set_brush(Material::Water);
    world.paint(0, 0);
    assert!(!world.move_down(0, 0));
    assert!(!world.move_side(0, 0));
    assert!(!world.move_down_side(0, 0));
    assert!(!world.move_up(0, 0));
    assert!(!world.move_up_side(0, 0));
    assert!(!world.propose(0, 0));
    world.commit_cells();
    assert_eq!(world.cell_at(0, 0), Material::Water);
}

#[test]
fn rules_fail_outside_the_grid() {
    let mut world = SandWorld::new(2, 2);
    assert!(!world.move_down(2, 0));
    assert!(!world.move_side(2, 0));
    assert!(!world.move_down_side(0, 2));
    assert!(!world.move_up(5, 5));
    assert!(!world.move_up_side(usize::MAX, 1));
    assert!(!world.propose(2, 2));
    assert!(!world.move_down(usize::MAX, usize::MAX));
}

#[test]
fn a_rule_proposes_and_the_commit_moves() {
    let mut world = SandWorld::new(2, 2);
    world.set_brush(Material::Rock);
    world.paint(0, 0);
    assert!(world.move_down(0, 0));
    assert_eq!(world.cell_at(0, 0), Material::Rock);
    world.commit_cells();
    assert_eq!(world.cell_at(0, 0), Material::Empty);
    assert_eq!(world.cell_at(0, 1), Material::Rock);
    assert!(world.move_up(0, 1));
    world.commit_cells();
    assert_eq!(world.cell_at(0, 0), Material::Rock);
    assert!(world.move_side(0, 0));
    world.commit_cells();
    assert_eq!(world.cell_at(1, 0), Material::Rock);
    assert!(world.move_down_side(1, 0));
    world.commit_cells();
    assert_eq!(world.cell_at(0, 1), Material::Rock);
    assert!(world.move_up_side(0, 1));
    world.commit_cells();
    assert_eq!(world.cell_at(1, 0), Material::Rock);
}

#[test]
fn move_cell_and_commit_move() {
    let mut world = SandWorld::new(2, 1);
    world.set_brush(Material::Smoke);
    world.paint(0, 0);
    world.move_cell(0, 0, 1, 0);
    world.commit_cells();
    assert_eq!(world.cell_at(0, 0), Material::Empty);
    assert_eq!(world.cell_at(1, 0), Material::Smoke);
    world.commit_move(1, 0);
    assert_eq!(world.cell_at(0, 0), Material::Smoke);
    assert_eq!(world.cell_at(1, 0), Material::Empty);
    world.set_brush(Material::Water);
    world.paint(1, 0);
    world.set_brush(Material::Sand);
    world.paint(0, 0);
    world.commit_move(0, 1);
    assert_eq!(world.cell_at(0, 0), Material::Water);
    assert_eq!(world.cell_at(1, 0), Material::Sand);
    world.commit_move(0, 1);
    assert_eq!(world.cell_at(0, 0), Material::Empty);
    assert_eq!(world.cell_at(1, 0), Material::Water);
}

#[test]
fn the_first_rule_of_the_mask_wins() {
    let mut world = SandWorld::new(3, 2);
    world.set_brush(Material::Water);
    world.paint(1, 0);
    assert!(world.propose(1, 0));
    world.commit_cells();
    assert_eq!(world.cell_at(1, 1), Material::Water);
    assert_eq!(world.cell_at(1, 0), Material::Empty);
}

#[test]
fn count_material_counts_cells() {
    let mut world = SandWorld::new(3, 2);
    assert_eq!(world.count_material(Material::Empty), 6);
    assert_eq!(world.count_material(Material::Sand), 0);
    world.paint(0, 0);
    world.paint(2, 1);
    world.set_brush(Material::Smoke);
    world.paint(1, 1);
    assert_eq!(world.count_material(Material::Sand), 2);
    assert_eq!(world.count_material(Material::Smoke), 1);
    assert_eq!(world.count_material(Material::Empty), 3);
    assert_eq!(world.count_material(Material::Rock), 0);
    let none = SandWorld::new(0, 0);
    assert_eq!(none.count_material(Material::Empty), 0);
}

#[test]
fn counts_are_kept_by_ticks() {
    let mut world = SandWorld::new(5, 5);
    let plan = [
        (0, 0, Material::Sand),
        (1, 0, Material::Water),
        (2, 0, Material::Sand),
        (2, 1, Material::Water),
        (2, 2, Material::Rock),
        (3, 4, Material::Smoke),
        (4, 4, Material::Smoke),
        (4, 0, Material::Water),
    ];
    for (x, y, material) in plan {
        world.set_brush(material);
        assert!(world.paint(x, y));
    }
    for _ in 0..25 {
        world.tick();
        assert_eq!(world.count_material(Material::Sand), 2);
        assert_eq!(world.count_material(Material::Water), 3);
        assert_eq!(world.count_material(Material::Rock), 1);
        assert_eq!(world.count_material(Material::Smoke), 2);
        assert_eq!(world.count_material(Material::Empty), 17);
    }
    assert_eq!(world.cell_at(2, 2), Material::Rock);
    assert_eq!(world.density(), 3);
}

#[test]
fn discard_pending_drops_the_proposals() {
    let mut world = SandWorld::new(1, 2);
    world.paint(0, 0);
    assert!(world.move_down(0, 0));
    world.discard_pending();
    world.commit_cells();
    assert_eq!(world.cell_at(0, 0), Material::Sand);
    assert_eq!(world.cell_at(0, 1), Material::Empty);
}
