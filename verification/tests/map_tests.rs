use venture::map::{river_rows, CellType, WorldMap};
use venture::ui::{slash_covers, tile_look, window, TileLook};

fn wave_for(height: u16) -> Vec<i32> {
    (0..height).map(|y| (15.0f32 * (y as f32 * 0.2).sin()) as i32).collect()
}

fn rivers_for(width: u16, height: u16) -> Vec<Vec<i32>> {
    river_rows(height)
        .iter()
        .map(|&base| {
            let seed = base as f32 * 0.1;
            (0..width as usize)
                .map(|x| (2.0f32 * (x as f32 * 0.15 + seed).sin()) as i32)
                .collect()
        })
        .collect()
}

fn standard_map() -> WorldMap {
    WorldMap::new(60, 100, &wave_for(100), &rivers_for(60, 100))
}

#[test]
fn river_rows_every_thirty_from_fifteen() {
    assert_eq!(river_rows(100), vec![15, 45, 75]);
    assert_eq!(river_rows(20), Vec::<usize>::new());
    assert_eq!(river_rows(21), vec![15]);
    assert_eq!(river_rows(50), vec![15]);
    assert_eq!(river_rows(51), vec![15, 45]);
}

#[test]
fn map_has_requested_size() {
    let m = standard_map();
    assert_eq!(m.width, 60);
    assert_eq!(m.height, 100);
    assert_eq!(m.grid.len(), 100);
    assert!(m.grid.iter().all(|row| row.len() == 60));
}

#[test]
fn trail_starts_three_rows_above_bottom_centre_and_reaches_top() {
    let m = standard_map();
    assert_eq!(m.path_steps[0], (30, 97));
    assert_eq!(m.path_steps.last().unwrap().1, 0);
}

#[test]
fn trail_is_connected_and_only_goes_up() {
    let m = standard_map();
    for w in m.path_steps.windows(2) {
        let (a, b) = (w[0], w[1]);
        let sideways = a.1 == b.1 && (a.0 as i32 - b.0 as i32).abs() == 1;
        let up = a.0 == b.0 && b.1 + 1 == a.1;
        assert!(sideways || up, "{:?} -> {:?}", a, b);
    }
}

#[test]
fn trail_cells_are_path_or_bridge_and_no_others() {
    let m = standard_map();
    for y in 0..100usize {
        for x in 0..60usize {
            let on_trail = m.path_steps.contains(&(x as u16, y as u16));
            let c = m.grid[y][x];
            assert_eq!(on_trail, c == CellType::Path || c == CellType::Bridge, "({}, {})", x, y);
        }
    }
}

#[test]
fn rivers_cross_the_trail_on_bridges() {
    let m = standard_map();
    let bridges = m.grid.iter().flatten().filter(|c| **c == CellType::Bridge).count();
    assert!(bridges >= 1);
    let water = m.grid.iter().flatten().filter(|c| **c == CellType::River).count();
    assert!(water > 0);
}

#[test]
fn top_left_corner_is_a_mountain() {
    let m = standard_map();
    assert_eq!(m.grid[0][0], CellType::Mountain);
}

#[test]
fn terrain_follows_clusters() {
    // (1, 1): val = 37 ^ 101 = 64, not below 40: grass.
    let m = standard_map();
    assert_eq!(m.grid[1][1], CellType::Grass);
    // (3, 0): val = 111 % 100 = 11; tree cluster (1*13 ^ 0) % 10 = 3, no tree;
    // mountain cluster 0 < 2: mountain.
    assert_eq!(m.grid[0][3], CellType::Mountain);
}

#[test]
fn straight_trail_with_no_wave() {
    let m = WorldMap::new(9, 6, &vec![0; 6], &vec![]);
    let expected: Vec<(u16, u16)> = vec![(4, 3), (4, 2), (4, 1), (4, 0)];
    assert_eq!(m.path_steps, expected);
}

#[test]
fn trail_steps_sideways_towards_the_wave() {
    let mut wave = vec![0; 6];
    wave[3] = 2;
    let m = WorldMap::new(12, 6, &wave, &vec![]);
    let expected: Vec<(u16, u16)> = vec![(6, 3), (7, 3), (8, 3), (8, 2), (7, 2), (6, 2), (6, 1), (6, 0)];
    assert_eq!(m.path_steps, expected);
}

#[test]
fn trail_keeps_two_cells_from_the_edge() {
    let m = WorldMap::new(10, 5, &vec![-100; 5], &vec![]);
    assert!(m.path_steps.iter().all(|&(x, _)| x >= 2 && x <= 7));
    assert_eq!(m.path_steps[1], (4, 2));
}

#[test]
fn river_over_trail_is_bridge() {
    let rows = river_rows(30);
    assert_eq!(rows, vec![15]);
    let m = WorldMap::new(8, 30, &vec![0; 30], &vec![vec![0; 8]]);
    assert_eq!(m.grid[15][4], CellType::Bridge);
    assert_eq!(m.grid[15][0], CellType::River);
    assert_eq!(m.grid[16][4], CellType::Path);
}

#[test]
fn window_centres_and_clamps() {
    assert_eq!(window(50, 20, 100), (40, 60));
    assert_eq!(window(3, 20, 100), (0, 20));
    assert_eq!(window(95, 20, 100), (80, 100));
    assert_eq!(window(5, 20, 10), (0, 10));
}

#[test]
fn window_shows_its_centre() {
    for size in 1..40u16 {
        for view in 1..50u16 {
            for c in 0..size {
                let (s, e) = window(c, view, size);
                assert!(s <= c && c < e && e <= size);
            }
        }
    }
}

#[test]
fn slash_band() {
    assert!(slash_covers(0, 0, 0));
    assert!(slash_covers(1, 3, 2));
    assert!(!slash_covers(1, 0, 0));
    assert!(!slash_covers(0, 1, 10));
}

#[test]
fn walked_trail_behind_the_knight() {
    let m = WorldMap::new(9, 6, &vec![0; 6], &vec![]);
    // trail (4,3) (4,2) (4,1) (4,0); knight on step 2 at (4,1)
    assert!(m.is_walked(4, 3, 2));
    assert!(m.is_walked(4, 2, 2));
    assert!(!m.is_walked(4, 1, 2));
    assert!(!m.is_walked(4, 0, 2));
    assert!(m.is_walked(0, 5, 2));
}

#[test]
fn trail_never_repeats_and_crosses_every_row() {
    let m = standard_map();
    let mut seen = std::collections::HashSet::new();
    assert!(m.path_steps.iter().all(|p| seen.insert(*p)));
    for r in 0..=97u16 {
        assert!(m.path_steps.iter().any(|p| p.1 == r), "row {}", r);
    }
}

#[test]
fn same_offsets_build_the_same_map() {
    let a = standard_map();
    let b = standard_map();
    assert_eq!(a.path_steps, b.path_steps);
    assert!(a.grid == b.grid);
}

#[test]
fn tile_looks() {
    assert_eq!(tile_look(CellType::Path, true), TileLook::Ground);
    assert_eq!(tile_look(CellType::Path, false), TileLook::Trail);
    assert_eq!(tile_look(CellType::Grass, false), TileLook::Ground);
    assert_eq!(tile_look(CellType::River, true), TileLook::Water);
    assert_eq!(tile_look(CellType::Bridge, false), TileLook::Bridge);
    assert_eq!(tile_look(CellType::Tree, false), TileLook::Tree);
    assert_eq!(tile_look(CellType::Mountain, false), TileLook::Mountain);
}
