use vstd::prelude::*;

verus! {

pub const PAWN_PIECE_VALUE_MG: i16 = 106;
pub const PAWN_PIECE_VALUE_EG: i16 = 187;
pub const KNIGHT_PIECE_VALUE_MG: i16 = 435;
pub const KNIGHT_PIECE_VALUE_EG: i16 = 731;
pub const KNIGHT_VALUE_WITH_PAWNS: [i16; 17] = [
    -41, -119, -47, -37, -30, -21, -4, 1, 18, 23, 32, 38, 46, 52, 51, 60, 57,
];
pub const BISHOP_PIECE_VALUE_MG: i16 = 487;
pub const BISHOP_PIECE_VALUE_EG: i16 = 714;
pub const BISHOP_PAIR_BONUS_MG: i16 = 34;
pub const BISHOP_PAIR_BONUS_EG: i16 = 112;
pub const ROOK_PIECE_VALUE_MG: i16 = 665;
pub const ROOK_PIECE_VALUE_EG: i16 = 1283;
pub const QUEEN_PIECE_VALUE_MG: i16 = 1544;
pub const QUEEN_PIECE_VALUE_EG: i16 = 2389;

pub const PSQT_PAWN_MG: [[i16; 8]; 8] = [
    [0, 0, 0, 0, 0, 0, 0, 0],
    [-41, -42, -35, -45, -26, -24, 4, -34],
    [-35, -40, -10, -2, 1, -4, -23, -26],
    [-32, -29, 10, 28, 33, 27, -4, -15],
    [-24, -10, -4, 9, 28, 16, 15, -1],
    [-6, 8, 37, 32, 60, 112, 56, 21],
    [5, 1, 28, 33, 37, 8, -20, -66],
    [0, 0, 0, 0, 0, 0, 0, 0],
];

pub const PSQT_PAWN_EG: [[i16; 8]; 8] = [
    [0, 0, 0, 0, 0, 0, 0, 0],
    [-20, -32, -31, -38, -16, -19, -34, -35],
    [-7, -19, -16, -15, -12, 0, -17, -16],
    [9, -10, -7, -20, -9, -1, -7, -7],
    [38, 7, -21, -43, -40, -18, 2, 15],
    [61, 47, 3, -51, -61, -5, 41, 40],
    [93, 59, 46, -12, -17, 6, 23, 32],
    [0, 0, 0, 0, 0, 0, 0, 0],
];

pub const PSQT_KNIGHT_MG: [[i16; 8]; 8] = [
    [-68, -42, -45, -27, -26, -17, -40, -66],
    [-57, -44, -23, 0, -4, -3, -15, -20],
    [-50, -10, 8, 13, 24, 17, 21, -27],
    [-25, 0, 23, 13, 29, 26, 13, -17],
    [-10, -1, 30, 58, 20, 56, -2, 8],
    [-22, 29, 38, 45, 106, 83, 47, -21],
    [-65, -28, 21, 34, -13, 89, -24, -48],
    [-178, -48, -39, -42, -31, -53, -40, -143],
];

pub const PSQT_KNIGHT_EG: [[i16; 8]; 8] = [
    [-58, -50, -24, -19, -19, -32, -43, -57],
    [-31, -29, -7, -6, -8, -11, -12, -10],
    [-17, 8, 12, 37, 27, 21, 3, -11],
    [-12, 12, 32, 42, 44, 24, 9, -11],
    [-1, 9, 30, 37, 29, 32, 3, -19],
    [-23, 3, 38, 31, 13, 15, -3, -29],
    [-49, -10, -3, 0, -30, -8, -15, -59],
    [-155, -53, -40, -35, -27, -53, -46, -143],
];

pub const PSQT_BISHOP_MG: [[i16; 8]; 8] = [
    [1, 20, -4, -5, -5, -20, 7, 1],
    [0, 12, 18, -5, 7, 16, 28, 11],
    [1, 18, 13, 7, 6, 22, 24, 12],
    [-6, -15, -9, 18, 15, 5, -1, 6],
    [-25, -6, 7, 17, 28, 8, -1, -44],
    [-14, 6, 16, 37, 10, 46, 20, 18],
    [-47, -18, -17, -7, -12, -17, -32, -43],
    [-55, -26, -18, -51, -47, -28, -19, -72],
];

pub const PSQT_BISHOP_EG: [[i16; 8]; 8] = [
    [-34, -35, -29, -19, -6, -9, -28, -32],
    [-26, -19, -27, -7, -6, -17, -4, -45],
    [-15, 29, 20, 18, 25, 26, 12, -1],
    [-3, 1, 24, 24, 18, 14, -4, -23],
    [-2, 12, 6, 31, 15, 6, -11, -10],
    [-4, 0, 6, -5, -10, 9, -9, -18],
    [-26, -10, -8, -8, -16, -22, -27, -44],
    [-28, -8, -18, -22, -32, -26, -28, -46],
];

pub const PSQT_KING_MG: [[i16; 8]; 8] = [
    [66, 101, 87, -24, 47, -8, 74, 81],
    [86, 66, 35, -10, -14, 21, 79, 83],
    [-37, -16, -66, -88, -90, -67, -8, -39],
    [-64, -84, -73, -103, -106, -85, -93, -82],
    [-70, -86, -84, -104, -103, -87, -91, -72],
    [-60, -80, -80, -100, -100, -80, -80, -61],
    [-60, -80, -80, -100, -100, -80, -80, -60],
    [-60, -80, -80, -100, -100, -80, -80, -60],
];

pub const PSQT_KING_EG: [[i16; 8]; 8] = [
    [-128, -98, -75, -73, -99, -68, -92, -154],
    [-74, -40, -23, -17, -14, -25, -52, -95],
    [-58, -12, 10, 22, 22, 7, -15, -56],
    [-49, 4, 42, 57, 48, 28, -1, -67],
    [-41, 33, 61, 80, 78, 62, 33, -41],
    [-26, 60, 70, 82, 80, 75, 68, -24],
    [-34, 34, 52, 30, 39, 53, 44, -29],
    [-79, -51, -42, -22, -19, -24, -46, -65],
];

} // verus!
