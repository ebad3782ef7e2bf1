use vstd::prelude::*;

verus! {

/// The two sides of a game.
#[derive(Debug, PartialEq, Eq, Clone, Copy, Structural)]
pub enum Color {
    White,
    Black,
}

impl Color {
    /// The opposing side.
    pub open spec fn flipped(self) -> Color {
        match self {
            Color::White => Color::Black,
            Color::Black => Color::White,
        }
    }

    /// Returns the opposing side.
    pub fn flip(self) -> (r: Color)
        ensures
            r == self.flipped(),
    {
        match self {
            Color::White => Color::Black,
            Color::Black => Color::White,
        }
    }

    /// The row index of this side's back rank.
    pub open spec fn home_rank(self) -> u8 {
        match self {
            Color::White => 7,
            Color::Black => 0,
        }
    }

    /// The change of row index of one pawn step forward.
    pub open spec fn forward(self) -> int {
        match self {
            Color::White => -1,
            Color::Black => 1,
        }
    }
}

impl core::ops::Not for Color {
    type Output = Color;

    fn not(self) -> (r: Color)
        ensures
            r == self.flipped(),
    {
        self.flip()
    }
}

impl vstd::std_specs::ops::NotSpecImpl for Color {
    open spec fn obeys_not_spec() -> bool {
        true
    }

    open spec fn not_req(self) -> bool {
        true
    }

    open spec fn not_spec(self) -> Color {
        self.flipped()
    }
}

/// A square: `x` is the file (0 is the a-file), `y` the row index (0 is the
/// back rank of Black).
#[derive(Debug, PartialEq, Eq, Clone, Copy, Structural)]
pub struct Position {
    pub x: u8,
    pub y: u8,
}

impl Position {
    /// Both coordinates lie on the board.
    pub open spec fn valid(self) -> bool {
        self.x < 8 && self.y < 8
    }

    /// Where this square stands in a row-major array of 64 squares.
    pub open spec fn idx(self) -> int {
        8 * self.y + self.x
    }

    /// Returns a position with the given x and y values.
    pub fn new(x: u8, y: u8) -> (r: Position)
        ensures
            r == (Position { x, y }),
    {
        Position { x, y }
    }
}

/// The kind of piece standing on a square; `Empty` marks an empty square.
#[derive(Debug, PartialEq, Eq, Clone, Copy, Structural)]
pub enum PieceType {
    Empty,
    Pawn,
    Knight,
    Bishop,
    Rook,
    Queen,
    King,
}

/// The content of one square.
#[derive(Debug, PartialEq, Eq, Clone, Copy, Structural)]
pub struct Piece {
    pub piece_type: PieceType,
    pub position: Position,
    pub color: Color,
    pub has_moved: bool,
}

impl Piece {
    /// A piece that has not moved yet.
    pub open spec fn fresh(piece_type: PieceType, position: Position, color: Color) -> Piece {
        Piece { piece_type, position, color, has_moved: false }
    }

    /// Whether the square is empty.
    pub open spec fn is_empty(self) -> bool {
        self.piece_type == PieceType::Empty
    }

    /// Whether this is a piece of side `c`.
    pub open spec fn belongs_to(self, c: Color) -> bool {
        self.piece_type != PieceType::Empty && self.color == c
    }

    /// Creates a new piece.
    pub fn new(piece_type: PieceType, position: Position, color: Color) -> (r: Piece)
        ensures
            r == Piece::fresh(piece_type, position, color),
    {
        Piece { piece_type, position, color, has_moved: false }
    }
}

/// The index of square (`x`, `y`) in a row-major array of 64 squares.
pub fn square_index(x: u8, y: u8) -> (r: usize)
    requires
        x < 8,
        y < 8,
    ensures
        r == 8 * y + x,
        r < 64,
{
    (8 * y + x) as usize
}

/// The kind of piece that starts on file `x` of a back rank.
pub open spec fn back_rank_kind(x: int) -> PieceType {
    if x == 0 || x == 7 {
        PieceType::Rook
    } else if x == 1 || x == 6 {
        PieceType::Knight
    } else if x == 2 || x == 5 {
        PieceType::Bishop
    } else if x == 3 {
        PieceType::Queen
    } else {
        PieceType::King
    }
}

/// What stands on square (`x`, `y`) in the standard starting position; empty
/// squares are recorded as white.
pub open spec fn start_piece(x: u8, y: u8) -> Piece {
    let position = Position { x, y };
    if y == 0 {
        Piece::fresh(back_rank_kind(x as int), position, Color::Black)
    } else if y == 1 {
        Piece::fresh(PieceType::Pawn, position, Color::Black)
    } else if y == 6 {
        Piece::fresh(PieceType::Pawn, position, Color::White)
    } else if y == 7 {
        Piece::fresh(back_rank_kind(x as int), position, Color::White)
    } else {
        Piece::fresh(PieceType::Empty, position, Color::White)
    }
}

/// The 64 squares of the standard starting position, in row-major order.
pub open spec fn start_squares() -> Seq<Piece> {
    Seq::new(64, |i: int| start_piece((i % 8) as u8, (i / 8) as u8))
}

fn back_rank_piece(x: u8) -> (r: PieceType)
    requires
        x < 8,
    ensures
        r == back_rank_kind(x as int),
{
    if x == 0 || x == 7 {
        PieceType::Rook
    } else if x == 1 || x == 6 {
        PieceType::Knight
    } else if x == 2 || x == 5 {
        PieceType::Bishop
    } else if x == 3 {
        PieceType::Queen
    } else {
        PieceType::King
    }
}

/// Returns the starting positions of the pieces.
pub fn starting_pieces() -> (r: [Piece; 64])
    ensures
        forall|x: u8, y: u8| x < 8 && y < 8 ==> #[trigger] r@[8 * y + x] == start_piece(x, y),
        r@ == start_squares(),
{
    let mut squares: [Piece; 64] = [Piece::new(PieceType::Empty, Position::new(0, 0), Color::White); 64];
    let mut y: u8 = 0;
    while y < 8
        invariant
            y <= 8,
            squares@.len() == 64,
            forall|a: u8, b: u8| a < 8 && b < y
                ==> #[trigger] squares@[8 * b + a] == start_piece(a, b),
        decreases 8 - y,
    {
        let mut x: u8 = 0;
        while x < 8
            invariant
                x <= 8,
                y < 8,
                squares@.len() == 64,
                forall|a: u8, b: u8| a < 8 && b < y
                    ==> #[trigger] squares@[8 * b + a] == start_piece(a, b),
                forall|a: u8| a < x ==> #[trigger] squares@[8 * y + a] == start_piece(a, y),
            decreases 8 - x,
        {
            let position = Position::new(x, y);
            let piece = if y == 0 {
                Piece::new(back_rank_piece(x), position, Color::Black)
            } else if y == 1 {
                Piece::new(PieceType::Pawn, position, Color::Black)
            } else if y == 6 {
                Piece::new(PieceType::Pawn, position, Color::White)
            } else if y == 7 {
                Piece::new(back_rank_piece(x), position, Color::White)
            } else {
                Piece::new(PieceType::Empty, position, Color::White)
            };
            squares[square_index(x, y)] = piece;
            x = x + 1;
        }
        y = y + 1;
    }
    assert forall|i: int| 0 <= i < 64 implies #[trigger] squares@[i] == start_squares()[i] by {
        let x = (i % 8) as u8;
        let y = (i / 8) as u8;
        assert(8 * y + x == i);
        assert(squares@[8 * y + x] == start_piece(x, y));
    }
    assert(squares@ =~= start_squares());
    squares
}

} // verus!
