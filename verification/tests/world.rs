use dungeon_crawler_world::terrain::{cell_passages, CellCoord3d, Direction3d, Passage3d};
use dungeon_crawler_world::world::{can_enter, passage_leads, stable_seed};

fn passage(from: CellCoord3d, direction: Direction3d) -> Passage3d {
    Passage3d {
        from,
        to: from.offset(direction),
        direction,
    }
}

#[test]
fn stable_seed_is_fnv1a_of_the_name() {
    assert_eq!(stable_seed(""), 14695981039346656037);
    assert_eq!(stable_seed("a"), 12638187200555641996);
    assert_eq!(stable_seed("My Save"), 12499477313683620156);
    assert_eq!(stable_seed("é"), 775207407765167617);
    assert_eq!(stable_seed("My Save"), stable_seed("My Save"));
}

#[test]
fn staying_in_the_cell_is_always_allowed() {
    let c = CellCoord3d::new(2, 2, 0);
    assert!(can_enter(c, c, &Vec::new()));
}

#[test]
fn one_step_needs_a_passage() {
    let c = CellCoord3d::new(2, 2, 0);
    let passages = vec![passage(c, Direction3d::East), passage(c, Direction3d::North)];
    assert!(can_enter(c, CellCoord3d::new(3, 2, 0), &passages));
    assert!(can_enter(c, CellCoord3d::new(2, 1, 0), &passages));
    assert!(!can_enter(c, CellCoord3d::new(1, 2, 0), &passages));
    assert!(!can_enter(c, CellCoord3d::new(2, 3, 0), &passages));
    assert!(passage_leads(&passages, Direction3d::North));
    assert!(!passage_leads(&passages, Direction3d::Up));
}

#[test]
fn diagonal_and_far_cells_are_refused() {
    let c = CellCoord3d::new(0, 0, 0);
    let all: Vec<Passage3d> = [
        Direction3d::North,
        Direction3d::South,
        Direction3d::East,
        Direction3d::West,
    ]
    .into_iter()
    .map(|d| passage(c, d))
    .collect();
    assert!(!can_enter(c, CellCoord3d::new(1, 1, 0), &all));
    assert!(!can_enter(c, CellCoord3d::new(2, 0, 0), &all));
    assert!(!can_enter(c, CellCoord3d::new(0, -3, 0), &all));
}

#[test]
fn a_step_through_generated_passages_can_be_walked_back() {
    let seed = 4242;
    for x in -4..4 {
        for y in -4..4 {
            let c = CellCoord3d::new(x, y, 0);
            for p in cell_passages(seed, c) {
                if p.direction == Direction3d::Up || p.direction == Direction3d::Down {
                    continue;
                }
                assert!(can_enter(c, p.to, &cell_passages(seed, c)));
                assert!(can_enter(p.to, c, &cell_passages(seed, p.to)));
            }
        }
    }
}
