use dungeon_crawler_world::terrain::{
    canonical_edge, cell_passages, chunk_cells, chunk_for_cell, chunks_around, div_floor,
    edge_is_open, hash_values, CellCoord3d, ChunkCoord, Direction3d, LayoutConfig,
};
use dungeon_crawler_world::terrain::generator::hash_neighborhood;
use dungeon_crawler_world::terrain3d::{
    candidate_pairs, kruskal_select, neighborhood_links, neighborhood_node_ids,
    node_grid_position, NODES_PER_NEIGHBORHOOD,
};

const ALL: [Direction3d; 6] = [
    Direction3d::North,
    Direction3d::South,
    Direction3d::East,
    Direction3d::West,
    Direction3d::Up,
    Direction3d::Down,
];

fn config(w: usize, d: usize, l: usize) -> LayoutConfig {
    LayoutConfig {
        chunk_width: w,
        chunk_depth: d,
        chunk_levels: l,
        generation_radius: 1,
        seed: 12345,
    }
}

#[test]
fn floor_division_rounds_down() {
    assert_eq!(div_floor(7, 2), 3);
    assert_eq!(div_floor(-7, 2), -4);
    assert_eq!(div_floor(7, -2), -4);
    assert_eq!(div_floor(-7, -2), 3);
    assert_eq!(div_floor(-8, 2), -4);
    assert_eq!(div_floor(0, 5), 0);
    assert_eq!(div_floor(i32::MIN, 1), i32::MIN);
    assert_eq!(div_floor(i32::MIN, 2), -1073741824);
    assert_eq!(div_floor(i32::MIN, -2), 1073741824);
    assert_eq!(div_floor(i32::MAX, -1), -i32::MAX);
}

#[test]
fn hash_values_known_results() {
    assert_eq!(hash_values(0, 0, 0, 0, 0), 14390039688252919542);
    assert_eq!(hash_values(42, 1, -2, 3, 11), 15550272219617028740);
    assert_eq!(hash_values(7, -5, 6, -7, 17), 18244049974249940531);
    assert_eq!(
        hash_neighborhood(12345, CellCoord3d::new(2, 3, 4), 1),
        5192732145369126151
    );
}

#[test]
fn canonical_edges_name_each_edge_once() {
    let c = CellCoord3d::new(3, -4, 5);
    assert_eq!(canonical_edge(c, Direction3d::East), (c, Direction3d::East));
    assert_eq!(
        canonical_edge(c, Direction3d::West),
        (CellCoord3d::new(2, -4, 5), Direction3d::East)
    );
    assert_eq!(
        canonical_edge(c, Direction3d::North),
        (CellCoord3d::new(3, -5, 5), Direction3d::South)
    );
    assert_eq!(
        canonical_edge(c, Direction3d::Down),
        (CellCoord3d::new(3, -4, 4), Direction3d::Up)
    );
    for d in ALL {
        let next = c.offset(d);
        assert_eq!(canonical_edge(c, d), canonical_edge(next, d.opposite()));
    }
}

#[test]
fn passages_are_open_from_both_sides() {
    for x in -6..6 {
        for y in -6..6 {
            for z in -2..2 {
                let c = CellCoord3d::new(x, y, z);
                for d in ALL {
                    assert_eq!(
                        edge_is_open(99, c, d),
                        edge_is_open(99, c.offset(d), d.opposite())
                    );
                }
            }
        }
    }
}

#[test]
fn passages_of_known_cells() {
    let dirs = |c: CellCoord3d| -> Vec<Direction3d> {
        cell_passages(12345, c).iter().map(|p| p.direction).collect()
    };
    assert_eq!(
        dirs(CellCoord3d::new(1, 1, 0)),
        vec![Direction3d::North, Direction3d::Down]
    );
    assert_eq!(dirs(CellCoord3d::new(5, -3, 2)), vec![Direction3d::North]);
    assert_eq!(dirs(CellCoord3d::new(-7, 2, -1)), vec![Direction3d::West]);
    for p in cell_passages(12345, CellCoord3d::new(1, 1, 0)) {
        assert_eq!(p.from, CellCoord3d::new(1, 1, 0));
        assert_eq!(p.to, p.from.offset(p.direction));
    }
}

#[test]
fn cells_belong_to_floor_chunks() {
    let cfg = config(8, 8, 3);
    assert_eq!(chunk_for_cell(cfg, CellCoord3d::new(0, 0, 0)), ChunkCoord::new(0, 0, 0));
    assert_eq!(chunk_for_cell(cfg, CellCoord3d::new(7, 8, 2)), ChunkCoord::new(0, 1, 0));
    assert_eq!(chunk_for_cell(cfg, CellCoord3d::new(-1, -8, -3)), ChunkCoord::new(-1, -1, -1));
    assert_eq!(chunk_for_cell(cfg, CellCoord3d::new(-9, 15, 3)), ChunkCoord::new(-2, 1, 1));
}

#[test]
fn chunk_cells_cover_the_chunk_in_order() {
    let cfg = config(3, 2, 2);
    let chunk = ChunkCoord::new(-1, 2, 0);
    let cells = chunk_cells(cfg, chunk);
    assert_eq!(cells.len(), 12);
    assert_eq!(cells[0], ([0, 0, 0], CellCoord3d::new(-3, 4, 0)));
    assert_eq!(cells[1], ([1, 0, 0], CellCoord3d::new(-2, 4, 0)));
    assert_eq!(cells[3], ([0, 1, 0], CellCoord3d::new(-3, 5, 0)));
    assert_eq!(cells[11], ([2, 1, 1], CellCoord3d::new(-1, 5, 1)));
    for (_, cell) in &cells {
        assert_eq!(chunk_for_cell(cfg, *cell), chunk);
    }
}

#[test]
fn chunks_around_the_center() {
    let center = ChunkCoord::new(5, -5, 0);
    let around = chunks_around(center, 1);
    assert_eq!(around.len(), 27);
    assert_eq!(around[0], ChunkCoord::new(4, -6, -1));
    assert_eq!(around[13], center);
    assert_eq!(around[26], ChunkCoord::new(6, -4, 1));
    assert_eq!(chunks_around(center, 0), vec![center]);
}

#[test]
fn layout_config_is_validated() {
    let bad = LayoutConfig {
        chunk_width: 0,
        chunk_depth: 4,
        chunk_levels: 0,
        generation_radius: -3,
        seed: 9,
    };
    let good = bad.validated();
    assert_eq!(good.chunk_width, 1);
    assert_eq!(good.chunk_depth, 4);
    assert_eq!(good.chunk_levels, 1);
    assert_eq!(good.generation_radius, 0);
    assert_eq!(good.seed, 9);
}

#[test]
fn kruskal_skips_edges_that_close_a_cycle() {
    let edges = vec![(0, 1), (1, 2), (0, 2), (2, 3), (1, 3)];
    assert_eq!(kruskal_select(4, &edges), vec![0, 1, 3]);
    assert!(kruskal_select(1, &edges[..0].to_vec()).is_empty());
    assert!(kruskal_select(0, &Vec::new()).is_empty());
}

#[test]
fn kruskal_stops_after_a_spanning_tree() {
    let edges = candidate_pairs(5);
    assert_eq!(edges.len(), 10);
    let taken = kruskal_select(5, &edges);
    assert_eq!(taken, vec![0, 1, 2, 3]);
}

#[test]
fn kruskal_connects_every_node_of_a_complete_graph() {
    let n = 12;
    let edges = candidate_pairs(n);
    let taken = kruskal_select(n, &edges);
    assert_eq!(taken.len(), n - 1);
    let mut reached = vec![false; n];
    reached[0] = true;
    let mut changed = true;
    while changed {
        changed = false;
        for &k in &taken {
            let (a, b) = edges[k];
            if reached[a] != reached[b] {
                reached[a] = true;
                reached[b] = true;
                changed = true;
            }
        }
    }
    assert!(reached.iter().all(|r| *r));
}

#[test]
fn candidate_pairs_are_every_ordered_pair() {
    assert_eq!(candidate_pairs(3), vec![(0, 1), (0, 2), (1, 2)]);
    assert!(candidate_pairs(1).is_empty());
}

#[test]
fn node_ids_and_positions() {
    assert_eq!(node_grid_position(0), (0, 0));
    assert_eq!(node_grid_position(10), (1, 1));
    assert_eq!(node_grid_position(80), (8, 8));
    let ids = neighborhood_node_ids(1, 2, 3);
    assert_eq!(ids.len(), NODES_PER_NEIGHBORHOOD);
    assert_eq!(ids[7].node, 7);
    assert_eq!(ids[7].cell_x, 1);
    assert_eq!(ids[7].cell_y, 2);
    assert_eq!(ids[7].neighborhood, 3);
    assert_eq!(neighborhood_links(), vec![(0, 1), (0, 2), (1, 3), (2, 3)]);
}

#[test]
fn directions_are_opposed_in_pairs() {
    for d in ALL {
        assert_eq!(d.opposite().opposite(), d);
        assert_ne!(d.opposite(), d);
    }
    assert_eq!(Direction3d::all(), ALL);
}

use dungeon_crawler_world::terrain::layout::{generate_chunk, TerrainLayout};

#[test]
fn layout_generates_each_chunk_once() {
    let mut layout = TerrainLayout::new(LayoutConfig {
        chunk_width: 2,
        chunk_depth: 2,
        chunk_levels: 1,
        generation_radius: 1,
        seed: 7,
    });
    assert_eq!(layout.generated_chunk_count(), 0);
    assert_eq!(layout.ensure_chunks_around(ChunkCoord::new(0, 0, 0)), 27);
    assert_eq!(layout.ensure_chunks_around(ChunkCoord::new(0, 0, 0)), 0);
    assert_eq!(layout.generated_chunk_count(), 27);
    assert_eq!(layout.ensure_chunks_around(ChunkCoord::new(1, 0, 0)), 9);
    assert_eq!(layout.generated_chunk_count(), 36);
    assert!(layout.chunk(ChunkCoord::new(2, 1, -1)).is_some());
    assert!(layout.chunk(ChunkCoord::new(3, 0, 0)).is_none());
}

#[test]
fn layout_finds_generated_cells() {
    let mut layout = TerrainLayout::new(LayoutConfig {
        chunk_width: 3,
        chunk_depth: 2,
        chunk_levels: 2,
        generation_radius: 0,
        seed: 99,
    });
    assert!(layout.cell(CellCoord3d::new(1, 1, 1)).is_none());
    assert_eq!(layout.ensure_chunks_around(ChunkCoord::new(0, 0, 0)), 1);
    let cell = layout.cell(CellCoord3d::new(2, 1, 1)).unwrap();
    assert_eq!(cell.coord, CellCoord3d::new(2, 1, 1));
    assert_eq!(cell.chunk, ChunkCoord::new(0, 0, 0));
    assert_eq!(cell.local, [2, 1, 1]);
    assert_eq!(cell.passages, cell_passages(99, CellCoord3d::new(2, 1, 1)));
    assert!(layout.cell(CellCoord3d::new(3, 0, 0)).is_none());
    assert!(layout.cell(CellCoord3d::new(-1, 0, 0)).is_none());
}

#[test]
fn zero_sized_chunks_become_single_cells() {
    let layout = TerrainLayout::new(LayoutConfig {
        chunk_width: 0,
        chunk_depth: 0,
        chunk_levels: 0,
        generation_radius: -2,
        seed: 1,
    });
    let config = layout.config();
    assert_eq!((config.chunk_width, config.chunk_depth, config.chunk_levels), (1, 1, 1));
    assert_eq!(config.generation_radius, 0);
    let chunk = generate_chunk(config, ChunkCoord::new(4, -4, 0));
    assert_eq!(chunk.cells.len(), 1);
    assert_eq!(chunk.cells[0].coord, CellCoord3d::new(4, -4, 0));
}
