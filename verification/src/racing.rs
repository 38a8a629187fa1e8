use vstd::prelude::*;

verus! {

/// What a tile of the track is made of.
#[derive(Copy, Clone, Debug, PartialEq, Eq, Structural)]
pub enum Tile {
    Grass,
    Road,
    Wall,
}

/// The track is this many tiles wide.
pub const TRACK_WIDTH: usize = 20;

/// The track is this many tiles high.
pub const TRACK_HEIGHT: usize = 15;

/// The tile at row `y`, column `x` of the track: a wall all around, an oval road (two
/// straights of two lanes along rows 2-3 and 11-12, two sides along columns 2-3 and 16-17,
/// joined at the four corners), grass elsewhere.
pub open spec fn track_tile(y: int, x: int) -> Tile {
    if y == 0 || y == 14 || x == 0 || x == 19 {
        Tile::Wall
    } else if (y == 2 || y == 3 || y == 11 || y == 12) && 4 <= x < 16 {
        Tile::Road
    } else if 4 <= y < 11 && (x == 2 || x == 3 || x == 16 || x == 17) {
        Tile::Road
    } else if (y == 3 || y == 11) && (x == 3 || x == 16) {
        Tile::Road
    } else {
        Tile::Grass
    }
}

/// `t` is a grid of `h` rows of `w` tiles.
pub open spec fn grid_shaped(t: Seq<Vec<Tile>>, h: int, w: int) -> bool {
    t.len() == h && forall|y: int| 0 <= y < h ==> (#[trigger] t[y])@.len() == w
}

/// Sets tiles `from..to` of row `y` to `tile`.
fn set_span(track: &mut Vec<Vec<Tile>>, y: usize, from: usize, to: usize, tile: Tile)
    requires
        grid_shaped(old(track)@, TRACK_HEIGHT as int, TRACK_WIDTH as int),
        y < TRACK_HEIGHT,
        from <= to <= TRACK_WIDTH,
    ensures
        grid_shaped(final(track)@, TRACK_HEIGHT as int, TRACK_WIDTH as int),
        forall|r: int, c: int| 0 <= r < TRACK_HEIGHT && 0 <= c < TRACK_WIDTH ==> #[trigger] final(track)@[r]@[c]
            == if r == y && from <= c < to { tile } else { old(track)@[r]@[c] },
{
    let mut x = from;
    while x < to
        invariant
            grid_shaped(track@, TRACK_HEIGHT as int, TRACK_WIDTH as int),
            y < TRACK_HEIGHT,
            from <= x <= to <= TRACK_WIDTH,
            forall|r: int, c: int| 0 <= r < TRACK_HEIGHT && 0 <= c < TRACK_WIDTH ==> #[trigger] track@[r]@[c]
                == if r == y && from <= c < x { tile } else { old(track)@[r]@[c] },
        decreases to - x,
    {
        let ghost before = track@;
        track[y][x] = tile;
        proof {
            assert forall|r: int| 0 <= r < TRACK_HEIGHT implies (#[trigger] track@[r])@.len() == TRACK_WIDTH by {
                if r != y {
                    assert(track@[r] == before[r]);
                }
            }
            assert forall|r: int, c: int| 0 <= r < TRACK_HEIGHT && 0 <= c < TRACK_WIDTH && !(r == y && c == x)
                implies #[trigger] track@[r]@[c] == before[r]@[c] by {
                if r != y {
                    assert(track@[r] == before[r]);
                }
            }
        }
        x += 1;
    }
}

/// Sets tiles `from..to` of column `x` to `tile`.
fn set_column_span(track: &mut Vec<Vec<Tile>>, x: usize, from: usize, to: usize, tile: Tile)
    requires
        grid_shaped(old(track)@, TRACK_HEIGHT as int, TRACK_WIDTH as int),
        x < TRACK_WIDTH,
        from <= to <= TRACK_HEIGHT,
    ensures
        grid_shaped(final(track)@, TRACK_HEIGHT as int, TRACK_WIDTH as int),
        forall|r: int, c: int| 0 <= r < TRACK_HEIGHT && 0 <= c < TRACK_WIDTH ==> #[trigger] final(track)@[r]@[c]
            == if c == x && from <= r < to { tile } else { old(track)@[r]@[c] },
{
    let mut y = from;
    while y < to
        invariant
            grid_shaped(track@, TRACK_HEIGHT as int, TRACK_WIDTH as int),
            x < TRACK_WIDTH,
            from <= y <= to <= TRACK_HEIGHT,
            forall|r: int, c: int| 0 <= r < TRACK_HEIGHT && 0 <= c < TRACK_WIDTH ==> #[trigger] track@[r]@[c]
                == if c == x && from <= r < y { tile } else { old(track)@[r]@[c] },
        decreases to - y,
    {
        let ghost before = track@;
        track[y][x] = tile;
        proof {
            assert forall|r: int| 0 <= r < TRACK_HEIGHT implies (#[trigger] track@[r])@.len() == TRACK_WIDTH by {
                if r != y {
                    assert(track@[r] == before[r]);
                }
            }
            assert forall|r: int, c: int| 0 <= r < TRACK_HEIGHT && 0 <= c < TRACK_WIDTH && !(r == y && c == x)
                implies #[trigger] track@[r]@[c] == before[r]@[c] by {
                if r != y {
                    assert(track@[r] == before[r]);
                }
            }
        }
        y += 1;
    }
}

/// The track: grass everywhere, then the oval road, then the walls around it.
pub fn generate_track() -> (track: Vec<Vec<Tile>>)
    ensures
        grid_shaped(track@, TRACK_HEIGHT as int, TRACK_WIDTH as int),
        forall|y: int, x: int| 0 <= y < TRACK_HEIGHT && 0 <= x < TRACK_WIDTH ==> #[trigger] track@[y]@[x] == track_tile(y, x),
{
    let mut track: Vec<Vec<Tile>> = Vec::new();
    let mut y: usize = 0;
    while y < TRACK_HEIGHT
        invariant
            y <= TRACK_HEIGHT,
            track@.len() == y,
            forall|r: int| 0 <= r < y ==> (#[trigger] track@[r])@.len() == TRACK_WIDTH,
            forall|r: int, c: int| 0 <= r < y && 0 <= c < TRACK_WIDTH ==> #[trigger] track@[r]@[c] == Tile::Grass,
        decreases TRACK_HEIGHT - y,
    {
        let mut row: Vec<Tile> = Vec::new();
        let mut x: usize = 0;
        while x < TRACK_WIDTH
            invariant
                x <= TRACK_WIDTH,
                row@.len() == x,
                forall|c: int| 0 <= c < x ==> #[trigger] row@[c] == Tile::Grass,
            decreases TRACK_WIDTH - x,
        {
            row.push(Tile::Grass);
            x += 1;
        }
        track.push(row);
        y += 1;
    }
    // Top straight
    set_span(&mut track, 2, 4, 16, Tile::Road);
    set_span(&mut track, 3, 4, 16, Tile::Road);
    // Bottom straight
    set_span(&mut track, 11, 4, 16, Tile::Road);
    set_span(&mut track, 12, 4, 16, Tile::Road);
    // Left side
    set_column_span(&mut track, 2, 4, 11, Tile::Road);
    set_column_span(&mut track, 3, 4, 11, Tile::Road);
    // Left corners
    set_span(&mut track, 3, 3, 4, Tile::Road);
    set_span(&mut track, 11, 3, 4, Tile::Road);
    // Right side
    set_column_span(&mut track, 16, 4, 11, Tile::Road);
    set_column_span(&mut track, 17, 4, 11, Tile::Road);
    // Right corners
    set_span(&mut track, 3, 16, 17, Tile::Road);
    set_span(&mut track, 11, 16, 17, Tile::Road);
    // Outer walls
    set_span(&mut track, 0, 0, TRACK_WIDTH, Tile::Wall);
    set_span(&mut track, TRACK_HEIGHT - 1, 0, TRACK_WIDTH, Tile::Wall);
    set_column_span(&mut track, 0, 0, TRACK_HEIGHT, Tile::Wall);
    set_column_span(&mut track, TRACK_WIDTH - 1, 0, TRACK_HEIGHT, Tile::Wall);
    track
}

/// The tile at column `grid_x`, row `grid_y` of the track; off the track everything is wall.
pub fn tile_at(track: &Vec<Vec<Tile>>, grid_x: i32, grid_y: i32) -> (t: Tile)
    requires
        grid_shaped(track@, TRACK_HEIGHT as int, TRACK_WIDTH as int),
    ensures
        t == if 0 <= grid_x < TRACK_WIDTH && 0 <= grid_y < TRACK_HEIGHT {
            track@[grid_y as int]@[grid_x as int]
        } else {
            Tile::Wall
        },
{
    if grid_x < 0 || grid_x >= TRACK_WIDTH as i32 || grid_y < 0 || grid_y >= TRACK_HEIGHT as i32 {
        return Tile::Wall;
    }
    track[grid_y as usize][grid_x as usize]
}

} // verus!
