use vstd::prelude::*;

verus! {

/// The six kinds of chess pieces, ordered from least to most valuable.
#[derive(Clone, Copy, Debug, PartialEq, Eq, Structural)]
pub enum PieceType {
    Pawn,
    Knight,
    Bishop,
    Rook,
    Queen,
    King,
}

impl PieceType {
    /// Position of the piece kind in the value tables (pawn 0 .. king 5).
    pub open spec fn index(self) -> nat {
        match self {
            PieceType::Pawn => 0,
            PieceType::Knight => 1,
            PieceType::Bishop => 2,
            PieceType::Rook => 3,
            PieceType::Queen => 4,
            PieceType::King => 5,
        }
    }

    pub fn to_index(&self) -> (r: usize)
        ensures
            r == self.index(),
    {
        match self {
            PieceType::Pawn => 0,
            PieceType::Knight => 1,
            PieceType::Bishop => 2,
            PieceType::Rook => 3,
            PieceType::Queen => 4,
            PieceType::King => 5,
        }
    }
}

/// What a move does besides moving its piece.
#[derive(Clone, Copy, Debug, PartialEq, Eq, Structural)]
pub enum GameMoveType {
    Quiet,
    Capture(PieceType),
    EnPassant,
    Castle,
    Promotion(PieceType, Option<PieceType>),
}

/// A move: origin and target square (0..64), the moving piece and the move's kind.
/// Two moves are equal when all four parts are.
#[derive(Clone, Copy, Debug, PartialEq, Eq, Structural)]
pub struct GameMove {
    pub from: u8,
    pub to: u8,
    pub move_type: GameMoveType,
    pub piece_type: PieceType,
}

impl GameMove {
    /// A move captures when it is a capture, an en-passant capture or a capturing promotion.
    pub open spec fn spec_is_capture(self) -> bool {
        match self.move_type {
            GameMoveType::Capture(_) => true,
            GameMoveType::EnPassant => true,
            GameMoveType::Promotion(_, Some(_)) => true,
            _ => false,
        }
    }

    /// The piece kind taken by a capturing move.
    pub open spec fn captured(self) -> PieceType
        recommends
            self.spec_is_capture(),
    {
        match self.move_type {
            GameMoveType::Capture(p) => p,
            GameMoveType::Promotion(_, Some(p)) => p,
            _ => PieceType::Pawn,
        }
    }

    /// Squares on the board and no king ever taken: what every legal move satisfies.
    pub open spec fn well_formed(self) -> bool {
        &&& self.from < 64
        &&& self.to < 64
        &&& self.spec_is_capture() ==> self.captured() != PieceType::King
    }

    pub fn is_capture(&self) -> (r: bool)
        ensures
            r == self.spec_is_capture(),
    {
        match self.move_type {
            GameMoveType::Capture(_) => true,
            GameMoveType::EnPassant => true,
            GameMoveType::Promotion(_, Some(_)) => true,
            _ => false,
        }
    }

    pub fn get_captured_piece(&self) -> (r: PieceType)
        requires
            self.spec_is_capture(),
        ensures
            r == self.captured(),
    {
        match self.move_type {
            GameMoveType::Capture(p) => p,
            GameMoveType::Promotion(_, Some(p)) => p,
            _ => PieceType::Pawn,
        }
    }
}

/// Equality of two optional moves, as `==` on `Option<GameMove>` decides it.
pub fn same_move(a: &Option<GameMove>, b: &Option<GameMove>) -> (r: bool)
    ensures
        r == (*a == *b),
{
    match (a, b) {
        (Some(x), Some(y)) => *x == *y,
        (None, None) => true,
        _ => false,
    }
}

} // verus!
