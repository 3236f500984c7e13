//! Piece and color enumerations, and the fixed board-geometry and
//! castling-rights constants.

use vstd::prelude::*;

verus! {

pub const RANK_1: u64 = 0x00000000000000FF;

pub const RANK_2: u64 = 0x000000000000FF00;

pub const RANK_3: u64 = 0x0000000000FF0000;

pub const RANK_4: u64 = 0x00000000FF000000;

pub const RANK_5: u64 = 0x000000FF00000000;

pub const RANK_6: u64 = 0x0000FF0000000000;

pub const RANK_7: u64 = 0x00FF000000000000;

pub const RANK_8: u64 = 0xFF00000000000000;

pub const FILE_A: u64 = 0x0101010101010101;

pub const FILE_B: u64 = 0x0202020202020202;

pub const FILE_C: u64 = 0x0404040404040404;

pub const FILE_D: u64 = 0x0808080808080808;

pub const FILE_E: u64 = 0x1010101010101010;

pub const FILE_F: u64 = 0x2020202020202020;

pub const FILE_G: u64 = 0x4040404040404040;

pub const FILE_H: u64 = 0x8080808080808080;

/// A generous bound on the pseudo-legal moves of any position; used only to
/// pre-size the generator's output buffer.
pub const MAX_PSEUDO_LEGAL_MOVES: usize = 256;

pub const WHITE_SHORT: u8 = 0b0001;

pub const WHITE_LONG: u8 = 0b0010;

pub const BLACK_SHORT: u8 = 0b0100;

pub const BLACK_LONG: u8 = 0b1000;

pub const WHITE_ALL: u8 = WHITE_SHORT | WHITE_LONG;

pub const BLACK_ALL: u8 = BLACK_SHORT | BLACK_LONG;

pub const ALL_RIGHTS: u8 = WHITE_ALL | BLACK_ALL;

pub const NO_RIGHTS: u8 = 0b0000;

/// Squares strictly between the white king and the h1 rook: f1 and g1.
pub const WHITE_SHORT_CLEARANCE_MASK: u64 = 0b1100000;

/// Squares strictly between the white king and the a1 rook: b1, c1 and d1.
pub const WHITE_LONG_CLEARANCE_MASK: u64 = 0b1110;

pub const BLACK_SHORT_CLEARANCE_MASK: u64 = WHITE_SHORT_CLEARANCE_MASK << 56;

pub const BLACK_LONG_CLEARANCE_MASK: u64 = WHITE_LONG_CLEARANCE_MASK << 56;

/// Squares the white king transits when castling short, its start square
/// included: e1, f1 and g1.
pub const WHITE_SHORT_CHECK_MASK: u64 = 0b1110000;

/// Squares the white king transits when castling long, its start square
/// included: c1, d1 and e1.
pub const WHITE_LONG_CHECK_MASK: u64 = 0b11100;

pub const BLACK_SHORT_CHECK_MASK: u64 = WHITE_SHORT_CHECK_MASK << 56;

pub const BLACK_LONG_CHECK_MASK: u64 = WHITE_LONG_CHECK_MASK << 56;

#[derive(Clone, Copy, Debug, PartialEq, Eq, Structural)]
pub enum GenericPiece {
    Pawn,
    Knight,
    Bishop,
    Rook,
    Queen,
    King,
}

#[derive(Clone, Copy, Debug, PartialEq, Eq, Structural)]
pub enum Color {
    White,
    Black,
}

#[derive(Clone, Copy, Debug, PartialEq, Eq, Structural)]
pub enum ColoredPiece {
    WhitePawn,
    BlackPawn,
    WhiteKnight,
    BlackKnight,
    WhiteBishop,
    BlackBishop,
    WhiteRook,
    BlackRook,
    WhiteQueen,
    BlackQueen,
    WhiteKing,
    BlackKing,
}

/// Index of a generic piece kind: pawn 0, knight 1, bishop 2, rook 3,
/// queen 4, king 5.
pub open spec fn generic_index(g: GenericPiece) -> int {
    match g {
        GenericPiece::Pawn => 0,
        GenericPiece::Knight => 1,
        GenericPiece::Bishop => 2,
        GenericPiece::Rook => 3,
        GenericPiece::Queen => 4,
        GenericPiece::King => 5,
    }
}

/// Index of a color: white 0, black 1.
pub open spec fn color_index(c: Color) -> int {
    match c {
        Color::White => 0,
        Color::Black => 1,
    }
}

/// Index of a colored piece, interleaved by color: white pawn 0,
/// black pawn 1, white knight 2, and so on up to black king 11.
pub open spec fn piece_index(p: ColoredPiece) -> int {
    match p {
        ColoredPiece::WhitePawn => 0,
        ColoredPiece::BlackPawn => 1,
        ColoredPiece::WhiteKnight => 2,
        ColoredPiece::BlackKnight => 3,
        ColoredPiece::WhiteBishop => 4,
        ColoredPiece::BlackBishop => 5,
        ColoredPiece::WhiteRook => 6,
        ColoredPiece::BlackRook => 7,
        ColoredPiece::WhiteQueen => 8,
        ColoredPiece::BlackQueen => 9,
        ColoredPiece::WhiteKing => 10,
        ColoredPiece::BlackKing => 11,
    }
}

/// The colored piece with the given interleaved index.
pub open spec fn piece_of_index(i: int) -> ColoredPiece {
    if i == 0 {
        ColoredPiece::WhitePawn
    } else if i == 1 {
        ColoredPiece::BlackPawn
    } else if i == 2 {
        ColoredPiece::WhiteKnight
    } else if i == 3 {
        ColoredPiece::BlackKnight
    } else if i == 4 {
        ColoredPiece::WhiteBishop
    } else if i == 5 {
        ColoredPiece::BlackBishop
    } else if i == 6 {
        ColoredPiece::WhiteRook
    } else if i == 7 {
        ColoredPiece::BlackRook
    } else if i == 8 {
        ColoredPiece::WhiteQueen
    } else if i == 9 {
        ColoredPiece::BlackQueen
    } else if i == 10 {
        ColoredPiece::WhiteKing
    } else {
        ColoredPiece::BlackKing
    }
}

/// The generic kind of the colored piece with the given interleaved index.
pub open spec fn generic_of_index(i: int) -> GenericPiece {
    if i < 2 {
        GenericPiece::Pawn
    } else if i < 4 {
        GenericPiece::Knight
    } else if i < 6 {
        GenericPiece::Bishop
    } else if i < 8 {
        GenericPiece::Rook
    } else if i < 10 {
        GenericPiece::Queen
    } else {
        GenericPiece::King
    }
}

impl Color {
    /// The other color.
    pub fn opposite(self) -> (r: Self)
        ensures
            r != self,
            color_index(r) == 1 - color_index(self),
    {
        match self {
            Color::White => Color::Black,
            Color::Black => Color::White,
        }
    }

    /// The index of this color: white 0, black 1.
    pub fn index(self) -> (r: usize)
        ensures
            r == color_index(self),
    {
        match self {
            Color::White => 0,
            Color::Black => 1,
        }
    }
}

impl GenericPiece {
    /// The index of this piece kind: pawn 0 up to king 5.
    pub fn index(self) -> (r: usize)
        ensures
            r == generic_index(self),
    {
        match self {
            GenericPiece::Pawn => 0,
            GenericPiece::Knight => 1,
            GenericPiece::Bishop => 2,
            GenericPiece::Rook => 3,
            GenericPiece::Queen => 4,
            GenericPiece::King => 5,
        }
    }
}

impl ColoredPiece {
    /// The interleaved index of this colored piece: white pawn 0 up to
    /// black king 11.
    pub fn index(self) -> (r: usize)
        ensures
            r == piece_index(self),
    {
        match self {
            ColoredPiece::WhitePawn => 0,
            ColoredPiece::BlackPawn => 1,
            ColoredPiece::WhiteKnight => 2,
            ColoredPiece::BlackKnight => 3,
            ColoredPiece::WhiteBishop => 4,
            ColoredPiece::BlackBishop => 5,
            ColoredPiece::WhiteRook => 6,
            ColoredPiece::BlackRook => 7,
            ColoredPiece::WhiteQueen => 8,
            ColoredPiece::BlackQueen => 9,
            ColoredPiece::WhiteKing => 10,
            ColoredPiece::BlackKing => 11,
        }
    }

    /// The color of this piece; even indices are white, odd ones black.
    pub fn color(self) -> (r: Color)
        ensures
            color_index(r) == piece_index(self) % 2,
    {
        match self {
            ColoredPiece::WhitePawn
            | ColoredPiece::WhiteKnight
            | ColoredPiece::WhiteBishop
            | ColoredPiece::WhiteRook
            | ColoredPiece::WhiteQueen
            | ColoredPiece::WhiteKing => Color::White,
            _ => Color::Black,
        }
    }

    /// The piece kind with the color stripped.
    pub fn generic(self) -> (r: GenericPiece)
        ensures
            r == generic_of_index(piece_index(self)),
            generic_index(r) == piece_index(self) / 2,
    {
        match self {
            ColoredPiece::WhitePawn | ColoredPiece::BlackPawn => GenericPiece::Pawn,
            ColoredPiece::WhiteKnight | ColoredPiece::BlackKnight => GenericPiece::Knight,
            ColoredPiece::WhiteBishop | ColoredPiece::BlackBishop => GenericPiece::Bishop,
            ColoredPiece::WhiteRook | ColoredPiece::BlackRook => GenericPiece::Rook,
            ColoredPiece::WhiteQueen | ColoredPiece::BlackQueen => GenericPiece::Queen,
            ColoredPiece::WhiteKing | ColoredPiece::BlackKing => GenericPiece::King,
        }
    }

    /// The colored piece with the given interleaved index, or `None` when
    /// the index is 12 or more.
    pub fn from_index(index: usize) -> (r: Option<Self>)
        ensures
            index < 12 ==> r == Some(piece_of_index(index as int)),
            index >= 12 ==> r is None,
    {
        match index {
            0 => Some(ColoredPiece::WhitePawn),
            1 => Some(ColoredPiece::BlackPawn),
            2 => Some(ColoredPiece::WhiteKnight),
            3 => Some(ColoredPiece::BlackKnight),
            4 => Some(ColoredPiece::WhiteBishop),
            5 => Some(ColoredPiece::BlackBishop),
            6 => Some(ColoredPiece::WhiteRook),
            7 => Some(ColoredPiece::BlackRook),
            8 => Some(ColoredPiece::WhiteQueen),
            9 => Some(ColoredPiece::BlackQueen),
            10 => Some(ColoredPiece::WhiteKing),
            11 => Some(ColoredPiece::BlackKing),
            _ => None,
        }
    }

    /// The colored piece of the given color and kind.
    pub fn from_parts(color: Color, generic: GenericPiece) -> (r: Self)
        ensures
            piece_index(r) == generic_index(generic) * 2 + color_index(color),
            piece_index(r) % 2 == color_index(color),
            generic_of_index(piece_index(r)) == generic,
    {
        let index = generic.index() * 2 + color.index();
        match ColoredPiece::from_index(index) {
            Some(p) => p,
            None => ColoredPiece::WhitePawn,
        }
    }
}

/// Builds the process-wide attack tables; called once before any move
/// generation. Succeeds exactly when every baked-in magic multiplier
/// passes its exhaustive check.
pub fn init() -> (r: Option<crate::magic::AttackTables>)
    ensures
        r matches Some(t) ==> t.wf(),
        r is Some <==> crate::magic::tables_build(),
{
    crate::magic::init_magic_info()
}

} // verus!
