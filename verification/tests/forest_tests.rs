use forestfire::forest::{coord_ix, ix_coord, neighbors, Coord, Forest, TreeState};
use forestfire::lighter::PROB_SCALE;

#[test]
fn test_forest_new() {
    let f = Forest::new(3, 3);
    assert!(f.size() == 9);
    assert!(f.trees[0] == TreeState::Alive);
}

#[test]
fn test_forest_light() {
    let mut f = Forest::new(3, 3);
    f.light();
    assert!(TreeState::Burning == *f.tree_at(Coord { x: 1, y: 1 }));
}

#[test]
fn test_coord_ix() {
    let f = Forest::new(3, 3);
    let c = ix_coord(f.width, 4);

    assert!(c.x == 1);
    assert!(c.y == 1);
}

#[test]
fn macro_works() {
    assert!(Coord { x: 3, y: 4 }.x == 3);
    assert!(Coord { x: 3, y: 4 }.y == 4);
}

#[test]
fn new_grid_is_all_alive() {
    let f = Forest::new(4, 3);
    assert_eq!(f.size(), 12);
    assert_eq!(f.trees.len(), 12);
    for t in &f.trees {
        assert_eq!(*t, TreeState::Alive);
    }
    assert!(!f.burning());
}

#[test]
fn light_sets_exactly_one_cell() {
    let mut f = Forest::new(5, 4);
    f.light();
    let center = coord_ix(5, Coord { x: 5 / 2, y: 4 / 2 });
    for (i, t) in f.trees.iter().enumerate() {
        if i == center {
            assert_eq!(*t, TreeState::Burning);
        } else {
            assert_eq!(*t, TreeState::Alive);
        }
    }
    assert!(f.burning());
}

#[test]
fn zero_size_grid_never_burns() {
    let mut f = Forest::new(0, 5);
    assert_eq!(f.size(), 0);
    assert!(!f.burning());
    f.burn(PROB_SCALE, PROB_SCALE);
    assert!(!f.burning());
}

#[test]
fn coord_ix_round_trip() {
    for ix in 0..12 {
        let c = ix_coord(4, ix);
        assert_eq!(coord_ix(4, c), ix);
    }
    let c = ix_coord(4, 7);
    assert_eq!(c.x, 3);
    assert_eq!(c.y, 1);
}

#[test]
fn neighbor_counts_by_position() {
    // Corner cells have 3 neighbors, non-corner edge cells 5, interior 8.
    assert_eq!(neighbors(3, 3, Coord { x: 0, y: 0 }).len(), 3);
    assert_eq!(neighbors(3, 3, Coord { x: 2, y: 0 }).len(), 3);
    assert_eq!(neighbors(3, 3, Coord { x: 0, y: 2 }).len(), 3);
    assert_eq!(neighbors(3, 3, Coord { x: 2, y: 2 }).len(), 3);
    assert_eq!(neighbors(3, 3, Coord { x: 1, y: 0 }).len(), 5);
    assert_eq!(neighbors(3, 3, Coord { x: 0, y: 1 }).len(), 5);
    assert_eq!(neighbors(3, 3, Coord { x: 2, y: 1 }).len(), 5);
    assert_eq!(neighbors(3, 3, Coord { x: 1, y: 2 }).len(), 5);
    assert_eq!(neighbors(3, 3, Coord { x: 1, y: 1 }).len(), 8);
    assert_eq!(neighbors(2, 2, Coord { x: 1, y: 1 }).len(), 3);
}

#[test]
fn neighbors_of_center_in_3x3() {
    let ns = neighbors(3, 3, Coord { x: 1, y: 1 });
    assert_eq!(ns, vec![0, 1, 2, 3, 5, 6, 7, 8]);
}

#[test]
fn num_burning_neighbors_after_light() {
    let mut f = Forest::new(3, 3);
    f.light();
    // Every other cell of the 3x3 grid touches the burning center.
    assert_eq!(f.num_burning_neighbors(Coord { x: 0, y: 0 }), 1);
    assert_eq!(f.num_burning_neighbors(Coord { x: 2, y: 2 }), 1);
    assert_eq!(f.num_burning_neighbors(Coord { x: 1, y: 0 }), 1);
    assert_eq!(f.num_burning_neighbors(Coord { x: 1, y: 1 }), 0);
}

#[test]
fn neighbor_states_after_light() {
    let mut f = Forest::new(3, 3);
    f.light();
    let ts = f.neighbor_states(Coord { x: 0, y: 0 });
    assert_eq!(ts, vec![TreeState::Alive, TreeState::Alive, TreeState::Burning]);
}

fn rank(t: TreeState) -> u32 {
    match t {
        TreeState::Alive => 0,
        TreeState::Burning => 1,
        TreeState::Burned => 2,
    }
}

#[test]
fn states_never_regress() {
    let mut f = Forest::new(6, 5);
    f.light();
    for _ in 0..20 {
        let before = f.trees.clone();
        f.burn(PROB_SCALE / 4, PROB_SCALE / 4);
        for (b, a) in before.iter().zip(f.trees.iter()) {
            assert!(rank(*b) <= rank(*a));
        }
    }
}

#[test]
fn certain_fire_burns_out_in_two_steps() {
    let mut f = Forest::new(3, 3);
    f.light();

    f.burn(PROB_SCALE, PROB_SCALE);
    // The center burned out; every other cell of the 3x3 grid caught fire.
    let center = coord_ix(3, Coord { x: 1, y: 1 });
    for (i, t) in f.trees.iter().enumerate() {
        if i == center {
            assert_eq!(*t, TreeState::Burned);
        } else {
            assert_eq!(*t, TreeState::Burning);
        }
    }
    assert!(f.burning());

    f.burn(PROB_SCALE, PROB_SCALE);
    assert!(!f.burning());
    assert_eq!(*f.tree_at(Coord { x: 1, y: 1 }), TreeState::Burned);
    for t in &f.trees {
        assert_eq!(*t, TreeState::Burned);
    }
}

#[test]
fn no_burn_out_keeps_burning() {
    let mut f = Forest::new(3, 3);
    f.light();
    for _ in 0..10 {
        f.burn(PROB_SCALE / 2, 0);
        assert!(f.burning());
    }
}

#[test]
fn render_fresh_2x1() {
    let f = Forest::new(2, 1);
    assert_eq!(f.render(), "FOREST 2 1\n^^\n");
}

#[test]
fn render_3x3_after_light() {
    let mut f = Forest::new(3, 3);
    f.light();
    assert_eq!(f.render(), "FOREST 3 3\n^^^\n^#^\n^^^\n");
}

#[test]
fn render_shows_all_three_symbols() {
    let mut f = Forest::new(3, 1);
    f.light();
    f.burn(PROB_SCALE, PROB_SCALE);
    // Center burned out, both neighbors caught fire.
    assert_eq!(f.render(), "FOREST 3 1\n#_#\n");
}

#[test]
fn render_double_digit_dimensions() {
    let f = Forest::new(12, 10);
    let s = f.render();
    assert!(s.starts_with("FOREST 12 10\n"));
    assert_eq!(s.lines().count(), 11);
}
