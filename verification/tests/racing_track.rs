use wasm_games::racing::{generate_track, tile_at, Tile, TRACK_HEIGHT, TRACK_WIDTH};

#[test]
fn track_has_its_size() {
    let t = generate_track();
    assert_eq!(t.len(), TRACK_HEIGHT);
    assert!(t.iter().all(|row| row.len() == TRACK_WIDTH));
}

#[test]
fn track_is_walled_in() {
    let t = generate_track();
    for x in 0..TRACK_WIDTH {
        assert_eq!(t[0][x], Tile::Wall);
        assert_eq!(t[TRACK_HEIGHT - 1][x], Tile::Wall);
    }
    for y in 0..TRACK_HEIGHT {
        assert_eq!(t[y][0], Tile::Wall);
        assert_eq!(t[y][TRACK_WIDTH - 1], Tile::Wall);
    }
}

#[test]
fn track_road_forms_an_oval() {
    let t = generate_track();
    assert_eq!(t[2][4], Tile::Road);
    assert_eq!(t[3][15], Tile::Road);
    assert_eq!(t[12][10], Tile::Road);
    assert_eq!(t[7][2], Tile::Road);
    assert_eq!(t[10][17], Tile::Road);
    assert_eq!(t[3][3], Tile::Road);
    assert_eq!(t[11][16], Tile::Road);
    assert_eq!(t[2][3], Tile::Grass);
    assert_eq!(t[2][16], Tile::Grass);
    assert_eq!(t[7][10], Tile::Grass);
    assert_eq!(t[4][4], Tile::Grass);
    let roads = t.iter().map(|row| row.iter().filter(|x| **x == Tile::Road).count()).sum::<usize>();
    assert_eq!(roads, 80);
    let walls = t.iter().map(|row| row.iter().filter(|x| **x == Tile::Wall).count()).sum::<usize>();
    assert_eq!(walls, 2 * TRACK_WIDTH + 2 * (TRACK_HEIGHT - 2));
}

#[test]
fn off_track_is_wall() {
    let t = generate_track();
    assert_eq!(tile_at(&t, -1, 5), Tile::Wall);
    assert_eq!(tile_at(&t, 5, -1), Tile::Wall);
    assert_eq!(tile_at(&t, 20, 5), Tile::Wall);
    assert_eq!(tile_at(&t, 5, 15), Tile::Wall);
    assert_eq!(tile_at(&t, 4, 12), Tile::Road);
    assert_eq!(tile_at(&t, 10, 7), Tile::Grass);
    assert_eq!(tile_at(&t, 2, 7), Tile::Road);
}
