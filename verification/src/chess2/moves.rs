use vstd::prelude::*;

verus! {

/// The kinds of chess pieces.
#[derive(Copy, Clone, Debug, PartialEq, Eq, Structural)]
pub enum PieceRole {
    Pawn,
    Knight,
    Bishop,
    Rook,
    Queen,
    King,
}

/// The two sides.
#[derive(Copy, Clone, Debug, PartialEq, Eq, Structural)]
pub enum Side {
    White,
    Black,
}

/// A legal move as plain values: the squares it goes from (none for a drop) and to, by
/// index (a1 is 0, h8 is 63), the piece a pawn becomes, and whether it takes a piece.
#[derive(Copy, Clone, Debug, PartialEq, Eq, Structural)]
pub struct MoveInfo {
    pub from: Option<u32>,
    pub to: u32,
    pub promotion: Option<PieceRole>,
    pub capture: bool,
}

/// A piece as it is shown: its kind and side by name.
#[derive(Clone, Debug)]
pub struct PieceData {
    pub piece_type: String,
    pub color: String,
    pub has_moved: bool,
}

/// A move as board coordinates: row 0 is the eighth rank, column 0 the a-file.
#[derive(Copy, Clone, Debug, PartialEq, Eq, Structural)]
pub struct MoveData {
    pub fr: usize,
    pub fc: usize,
    pub tr: usize,
    pub tc: usize,
}

/// The answer to a move request.
pub struct MoveResult {
    pub success: bool,
    pub message: String,
}

/// The piece kind with number `i` (pawn 1 to king 6).
pub open spec fn role_numbered(i: int) -> PieceRole {
    if i == 1 {
        PieceRole::Pawn
    } else if i == 2 {
        PieceRole::Knight
    } else if i == 3 {
        PieceRole::Bishop
    } else if i == 4 {
        PieceRole::Rook
    } else if i == 5 {
        PieceRole::Queen
    } else {
        PieceRole::King
    }
}

/// The piece kind with number `i`: pawn 1, knight 2, bishop 3, rook 4, queen 5, king 6.
pub fn role_from_index(i: u32) -> (r: PieceRole)
    requires
        1 <= i <= 6,
    ensures
        r == role_numbered(i as int),
{
    if i == 1 {
        PieceRole::Pawn
    } else if i == 2 {
        PieceRole::Knight
    } else if i == 3 {
        PieceRole::Bishop
    } else if i == 4 {
        PieceRole::Rook
    } else if i == 5 {
        PieceRole::Queen
    } else {
        PieceRole::King
    }
}

/// The side with number `i`: black 0, white 1.
pub fn side_from_index(i: u32) -> (s: Side)
    requires
        i <= 1,
    ensures
        s == (if i == 1 { Side::White } else { Side::Black }),
{
    if i == 1 {
        Side::White
    } else {
        Side::Black
    }
}

/// A move as the crate reports it (start square, target square, promotion number,
/// capture), given as a `MoveInfo`.
pub open spec fn info_of(raw: (Option<u32>, u32, Option<u32>, bool)) -> MoveInfo {
    MoveInfo {
        from: raw.0,
        to: raw.1,
        promotion: match raw.2 {
            Some(i) => Some(role_numbered(i as int)),
            None => None,
        },
        capture: raw.3,
    }
}

/// Moves as the crate reports them, given as `MoveInfo`s.
pub open spec fn infos_of(raws: Seq<(Option<u32>, u32, Option<u32>, bool)>) -> Seq<MoveInfo> {
    raws.map_values(|raw: (Option<u32>, u32, Option<u32>, bool)| info_of(raw))
}

/// Moves as the crate reports them, with squares on the board and piece numbers 1 to 6.
pub open spec fn sane_raws(raws: Seq<(Option<u32>, u32, Option<u32>, bool)>) -> bool {
    forall|j: int| 0 <= j < raws.len() ==> {
        let m = #[trigger] raws[j];
        &&& (m.0 matches Some(f) ==> f < 64)
        &&& m.1 < 64
        &&& (m.2 matches Some(r) ==> 1 <= r <= 6)
    }
}

/// Moves as the crate reports them, given as `MoveInfo`s.
pub fn move_infos(raws: &Vec<(Option<u32>, u32, Option<u32>, bool)>) -> (infos: Vec<MoveInfo>)
    requires
        sane_raws(raws@),
    ensures
        infos@ == infos_of(raws@),
        on_board_moves(infos@),
{
    let mut infos: Vec<MoveInfo> = Vec::new();
    let mut k: usize = 0;
    while k < raws.len()
        invariant
            k <= raws.len(),
            sane_raws(raws@),
            infos@ == infos_of(raws@.take(k as int)),
            on_board_moves(infos@),
        decreases raws.len() - k,
    {
        let (from, to, promo, capture) = raws[k];
        let promotion = match promo {
            Some(i) => Some(role_from_index(i)),
            None => None,
        };
        infos.push(MoveInfo { from, to, promotion, capture });
        proof {
            assert(raws@.take(k as int + 1) == raws@.take(k as int).push(raws@[k as int]));
            assert(infos@ =~= infos_of(raws@.take(k as int + 1)));
        }
        k += 1;
    }
    assert(raws@.take(raws@.len() as int) == raws@);
    infos
}

/// The index of the square at (row, col), row 0 being the eighth rank.
pub open spec fn square_of(row: int, col: int) -> int {
    (7 - row) * 8 + col
}

/// The index of the square at (row, col): the column is taken as a 32-bit file.
pub fn row_col_to_square(row: usize, col: usize) -> (sq: u32)
    requires
        row <= 7,
        square_of(row as int, (col as u32) as int) < 64,
    ensures
        sq == square_of(row as int, (col as u32) as int),
{
    let file = col as u32;
    let rank = (7 - row) as u32;
    rank * 8 + file
}

/// Board coordinates and square indices name the same squares, one for one.
pub proof fn lemma_square_round_trip(row: int, col: int, sq: int)
    ensures
        0 <= row < 8 && 0 <= col < 8 ==> 0 <= square_of(row, col) < 64 && 7 - square_of(row, col) / 8 == row
            && square_of(row, col) % 8 == col,
        0 <= sq < 64 ==> square_of(7 - sq / 8, sq % 8) == sq,
{
}

/// The board coordinates of the square with index `sq`.
pub fn square_to_row_col(sq: u32) -> (rc: (usize, usize))
    requires
        sq < 64,
    ensures
        rc.0 == 7 - sq / 8,
        rc.1 == sq % 8,
        rc.0 < 8,
        rc.1 < 8,
{
    let file = sq % 8;
    let rank = sq / 8;
    let row = 7 - rank as usize;
    let col = file as usize;
    (row, col)
}

/// What the status line says of a position.
pub open spec fn status_text(checkmate: bool, stalemate: bool, insufficient: bool, turn: Side) -> Seq<char> {
    if checkmate {
        match turn {
            Side::White => "Checkmate! Black wins!"@,
            Side::Black => "Checkmate! White wins!"@,
        }
    } else if stalemate {
        "Stalemate!"@
    } else if insufficient {
        "Draw by insufficient material!"@
    } else {
        "Active"@
    }
}

/// The status line of a position from what is known of it: a mate is won by the side that
/// is not to move; then stalemate; then a draw for lack of material.
pub fn status_message(checkmate: bool, stalemate: bool, insufficient: bool, turn: Side) -> (res: String)
    ensures
        res@ == status_text(checkmate, stalemate, insufficient, turn),
{
    broadcast use vstd::string::to_string_from_display_ensures_for_str;
    if checkmate {
        return match turn {
            Side::White => "Checkmate! Black wins!".to_string(),
            Side::Black => "Checkmate! White wins!".to_string(),
        };
    }
    if stalemate {
        return "Stalemate!".to_string();
    }
    if insufficient {
        return "Draw by insufficient material!".to_string();
    }
    "Active".to_string()
}

/// The side to move as a quoted name.
pub open spec fn turn_text(turn: Side) -> Seq<char> {
    match turn {
        Side::White => "\"White\""@,
        Side::Black => "\"Black\""@,
    }
}

pub fn turn_message(turn: Side) -> (res: String)
    ensures
        res@ == turn_text(turn),
{
    broadcast use vstd::string::to_string_from_display_ensures_for_str;
    match turn {
        Side::White => "\"White\"".to_string(),
        Side::Black => "\"Black\"".to_string(),
    }
}

/// Moves given as plain values have squares on the board.
pub open spec fn on_board_moves(moves: Seq<MoveInfo>) -> bool {
    forall|j: int| 0 <= j < moves.len() ==> (#[trigger] moves[j]).to < 64 && (moves[j].from matches Some(f) ==> f < 64)
}

/// The move goes from `from` to `to` and, if it promotes, promotes to a queen.
pub open spec fn requested(m: MoveInfo, from: u32, to: u32) -> bool {
    &&& m.from == Some(from)
    &&& m.to == to
    &&& (m.promotion is None || m.promotion == Some(PieceRole::Queen))
}

/// The index of the first move among the first `n` that `requested` accepts, if any.
pub open spec fn first_requested(moves: Seq<MoveInfo>, from: u32, to: u32, n: int) -> Option<int>
    decreases n,
{
    if n <= 0 {
        None
    } else {
        match first_requested(moves, from, to, n - 1) {
            Some(i) => Some(i),
            None => if requested(moves[n - 1], from, to) { Some(n - 1) } else { None },
        }
    }
}

/// Once a requested move is found, later moves do not change which is first.
proof fn lemma_first_requested_stays(moves: Seq<MoveInfo>, from: u32, to: u32, k: int, n: int)
    requires
        0 < k <= n,
        first_requested(moves, from, to, k) is Some,
    ensures
        first_requested(moves, from, to, n) == first_requested(moves, from, to, k),
    decreases n,
{
    if n > k {
        lemma_first_requested_stays(moves, from, to, k, n - 1);
    }
}

/// The first move from `from` to `to` that promotes to a queen if it promotes at all.
pub fn pick_move(moves: &Vec<MoveInfo>, from: u32, to: u32) -> (i: Option<usize>)
    ensures
        i matches Some(k) ==> first_requested(moves@, from, to, moves@.len() as int) == Some(k as int),
        i is None ==> first_requested(moves@, from, to, moves@.len() as int) is None,
        i is None <==> forall|j: int| 0 <= j < moves.len() ==> !requested(#[trigger] moves@[j], from, to),
        i matches Some(k) ==> k < moves.len() && requested(moves@[k as int], from, to)
            && forall|j: int| 0 <= j < k ==> !requested(#[trigger] moves@[j], from, to),
{
    let mut k: usize = 0;
    while k < moves.len()
        invariant
            k <= moves.len(),
            forall|j: int| 0 <= j < k ==> !requested(#[trigger] moves@[j], from, to),
            first_requested(moves@, from, to, k as int) is None,
        decreases moves.len() - k,
    {
        let m = moves[k];
        if m.from == Some(from) && m.to == to && (m.promotion.is_none() || m.promotion == Some(PieceRole::Queen)) {
            proof {
                lemma_first_requested_stays(moves@, from, to, k as int + 1, moves@.len() as int);
            }
            return Some(k);
        }
        k += 1;
    }
    None
}

/// The coordinates of the squares that the moves among the first `n` starting on `from` go to.
pub open spec fn targets_upto(moves: Seq<MoveInfo>, from: u32, n: int) -> Seq<(usize, usize)>
    decreases n,
{
    if n <= 0 {
        Seq::empty()
    } else {
        let prev = targets_upto(moves, from, n - 1);
        let m = moves[n - 1];
        if m.from == Some(from) {
            prev.push(((7 - m.to / 8) as usize, (m.to % 8) as usize))
        } else {
            prev
        }
    }
}

/// The coordinates of the squares that the moves starting on `from` go to, in order.
pub fn targets(moves: &Vec<MoveInfo>, from: u32) -> (res: Vec<(usize, usize)>)
    requires
        on_board_moves(moves@),
    ensures
        res@ == targets_upto(moves@, from, moves@.len() as int),
        forall|j: int| 0 <= j < res@.len() ==> (#[trigger] res@[j]).0 < 8 && res@[j].1 < 8,
{
    let mut res: Vec<(usize, usize)> = Vec::new();
    let mut k: usize = 0;
    while k < moves.len()
        invariant
            k <= moves.len(),
            on_board_moves(moves@),
            res@ == targets_upto(moves@, from, k as int),
            forall|j: int| 0 <= j < res@.len() ==> (#[trigger] res@[j]).0 < 8 && res@[j].1 < 8,
        decreases moves.len() - k,
    {
        let m = moves[k];
        if m.from == Some(from) {
            res.push(square_to_row_col(m.to));
        }
        k += 1;
    }
    res
}

/// The index of the first capture among the first `n` moves, if any.
pub open spec fn first_capture(moves: Seq<MoveInfo>, n: int) -> Option<int>
    decreases n,
{
    if n <= 0 {
        None
    } else {
        match first_capture(moves, n - 1) {
            Some(i) => Some(i),
            None => if moves[n - 1].capture { Some(n - 1) } else { None },
        }
    }
}

/// The move a player would pick: the first capture, else the first move.
pub open spec fn best_index(moves: Seq<MoveInfo>) -> Option<int> {
    if moves.len() == 0 {
        None
    } else {
        match first_capture(moves, moves.len() as int) {
            Some(i) => Some(i),
            None => Some(0),
        }
    }
}

/// The picked move as coordinates; none when there is no move or it is a drop.
pub open spec fn best_move_data(moves: Seq<MoveInfo>) -> Option<MoveData> {
    match best_index(moves) {
        None => None,
        Some(i) => match moves[i].from {
            None => None,
            Some(f) => Some(MoveData {
                fr: (7 - f / 8) as usize,
                fc: (f % 8) as usize,
                tr: (7 - moves[i].to / 8) as usize,
                tc: (moves[i].to % 8) as usize,
            }),
        },
    }
}

/// Picks the first capture, else the first move, as coordinates.
pub fn best_move(moves: &Vec<MoveInfo>) -> (res: Option<MoveData>)
    requires
        on_board_moves(moves@),
    ensures
        res == best_move_data(moves@),
{
    if moves.len() == 0 {
        return None;
    }
    let mut best: usize = 0;
    let mut k: usize = 0;
    while k < moves.len()
        invariant_except_break
            k <= moves.len(),
            first_capture(moves@, k as int) is None,
            best == 0,
            moves.len() > 0,
        ensures
            best < moves.len(),
            match first_capture(moves@, moves@.len() as int) {
                Some(i) => best == i,
                None => best == 0,
            },
        decreases moves.len() - k,
    {
        if moves[k].capture {
            best = k;
            proof {
                lemma_first_capture_stays(moves@, k as int + 1, moves@.len() as int);
            }
            break;
        }
        k += 1;
    }
    let m = moves[best];
    match m.from {
        None => None,
        Some(f) => {
            let (fr, fc) = square_to_row_col(f);
            let (tr, tc) = square_to_row_col(m.to);
            Some(MoveData { fr, fc, tr, tc })
        },
    }
}

/// Once a capture is found, later moves do not change which is first.
proof fn lemma_first_capture_stays(moves: Seq<MoveInfo>, k: int, n: int)
    requires
        0 < k <= n,
        first_capture(moves, k) is Some,
    ensures
        first_capture(moves, n) == first_capture(moves, k),
    decreases n,
{
    if n > k {
        lemma_first_capture_stays(moves, k, n - 1);
    }
}

pub open spec fn role_name(r: PieceRole) -> Seq<char> {
    match r {
        PieceRole::Pawn => "Pawn"@,
        PieceRole::Knight => "Knight"@,
        PieceRole::Bishop => "Bishop"@,
        PieceRole::Rook => "Rook"@,
        PieceRole::Queen => "Queen"@,
        PieceRole::King => "King"@,
    }
}

pub open spec fn side_name(s: Side) -> Seq<char> {
    match s {
        Side::White => "White"@,
        Side::Black => "Black"@,
    }
}

/// `d` shows the piece `p`, or nothing when there is none.
pub open spec fn shows(d: Option<PieceData>, p: Option<(PieceRole, Side)>) -> bool {
    match p {
        None => d is None,
        Some(q) => d matches Some(x) && x.piece_type@ == role_name(q.0) && x.color@ == side_name(q.1) && !x.has_moved,
    }
}

/// A piece as it is shown.
pub fn piece_data(p: Option<(PieceRole, Side)>) -> (d: Option<PieceData>)
    ensures
        shows(d, p),
{
    broadcast use vstd::string::to_string_from_display_ensures_for_str;
    match p {
        None => None,
        Some((role, side)) => {
            let color = match side {
                Side::White => "White",
                Side::Black => "Black",
            };
            let ptype = match role {
                PieceRole::Pawn => "Pawn",
                PieceRole::Knight => "Knight",
                PieceRole::Bishop => "Bishop",
                PieceRole::Rook => "Rook",
                PieceRole::Queen => "Queen",
                PieceRole::King => "King",
            };
            Some(PieceData { piece_type: ptype.to_string(), color: color.to_string(), has_moved: false })
        },
    }
}

/// The board as eight rows of eight squares, row 0 being the eighth rank, from the pieces
/// on the squares by index.
pub fn board_grid(pieces: &Vec<Option<(PieceRole, Side)>>) -> (grid: Vec<Vec<Option<PieceData>>>)
    requires
        pieces@.len() == 64,
    ensures
        grid@.len() == 8,
        forall|r: int| 0 <= r < 8 ==> (#[trigger] grid@[r])@.len() == 8,
        forall|r: int, c: int| 0 <= r < 8 && 0 <= c < 8 ==> shows(#[trigger] grid@[r]@[c], pieces@[square_of(r, c)]),
{
    let mut grid: Vec<Vec<Option<PieceData>>> = Vec::new();
    let mut row: usize = 0;
    while row < 8
        invariant
            row <= 8,
            pieces@.len() == 64,
            grid@.len() == row,
            forall|r: int| 0 <= r < row ==> (#[trigger] grid@[r])@.len() == 8,
            forall|r: int, c: int| 0 <= r < row && 0 <= c < 8 ==> shows(#[trigger] grid@[r]@[c], pieces@[square_of(r, c)]),
        decreases 8 - row,
    {
        let mut line: Vec<Option<PieceData>> = Vec::new();
        let mut col: usize = 0;
        while col < 8
            invariant
                row < 8,
                col <= 8,
                pieces@.len() == 64,
                line@.len() == col,
                forall|c: int| 0 <= c < col ==> shows(#[trigger] line@[c], pieces@[square_of(row as int, c)]),
            decreases 8 - col,
        {
            let sq = row_col_to_square(row, col);
            line.push(piece_data(pieces[sq as usize]));
            col += 1;
        }
        grid.push(line);
        row += 1;
    }
    grid
}

} // verus!
