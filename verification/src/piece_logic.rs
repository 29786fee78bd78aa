//! Colors and piece types by their one-letter names, and what a piece is
//! worth.

use crate::text::same_text;
use vstd::prelude::*;

verus! {

/// A string names no color, or no piece type.
#[derive(Clone, Copy, Debug, PartialEq, Eq, Structural)]
pub struct UnknownName;

/// The side that a piece belongs to.
#[derive(Clone, Copy, Debug, PartialEq, Eq, Structural)]
pub enum ChessColor {
    Black,
    White,
}

impl ChessColor {
    /// The name of the color: `b` or `w`.
    pub open spec fn name(self) -> Seq<char> {
        match self {
            ChessColor::Black => seq!['b'],
            ChessColor::White => seq!['w'],
        }
    }

    /// The color that `text` names, if it names one.
    pub open spec fn named(text: Seq<char>) -> Option<ChessColor> {
        if text == ChessColor::Black.name() {
            Some(ChessColor::Black)
        } else if text == ChessColor::White.name() {
            Some(ChessColor::White)
        } else {
            None
        }
    }

    /// Writes the color as its name.
    pub fn to_string(&self) -> (text: String)
        ensures
            text@ == self.name(),
    {
        proof {
            reveal_strlit("b");
            reveal_strlit("w");
        }
        let text = match self {
            ChessColor::Black => "b".to_owned(),
            ChessColor::White => "w".to_owned(),
        };
        assert(text@ =~= self.name());
        text
    }

    /// Reads a color from its name.
    pub fn from_str(text: &str) -> (parsed: Result<ChessColor, UnknownName>)
        ensures
            parsed == match Self::named(text@) {
                Some(color) => Ok::<ChessColor, UnknownName>(color),
                None => Err(UnknownName),
            },
    {
        proof {
            reveal_strlit("b");
            reveal_strlit("w");
            assert("b"@ =~= ChessColor::Black.name());
            assert("w"@ =~= ChessColor::White.name());
        }
        if same_text(text, "b") {
            Ok(ChessColor::Black)
        } else if same_text(text, "w") {
            Ok(ChessColor::White)
        } else {
            Err(UnknownName)
        }
    }
}

/// A kind of chess piece.
#[derive(Clone, Copy, Debug, PartialEq, Eq, Structural)]
pub enum PieceTypes {
    Pawn,
    Rook,
    Knight,
    Bishop,
    Queen,
    King,
}

impl PieceTypes {
    /// The name of the piece type: a small letter.
    pub open spec fn name(self) -> Seq<char> {
        match self {
            PieceTypes::Pawn => seq!['p'],
            PieceTypes::Rook => seq!['r'],
            PieceTypes::Knight => seq!['n'],
            PieceTypes::Bishop => seq!['b'],
            PieceTypes::Queen => seq!['q'],
            PieceTypes::King => seq!['k'],
        }
    }

    /// The piece type that `text` names, if it names one.
    pub open spec fn named(text: Seq<char>) -> Option<PieceTypes> {
        if text == PieceTypes::Pawn.name() {
            Some(PieceTypes::Pawn)
        } else if text == PieceTypes::Rook.name() {
            Some(PieceTypes::Rook)
        } else if text == PieceTypes::Knight.name() {
            Some(PieceTypes::Knight)
        } else if text == PieceTypes::Bishop.name() {
            Some(PieceTypes::Bishop)
        } else if text == PieceTypes::Queen.name() {
            Some(PieceTypes::Queen)
        } else if text == PieceTypes::King.name() {
            Some(PieceTypes::King)
        } else {
            None
        }
    }

    /// What a piece of this type is worth, in pawns. The king, which is
    /// never given up, has the value -1.
    pub open spec fn value(self) -> int {
        match self {
            PieceTypes::Pawn => 1,
            PieceTypes::Rook => 5,
            PieceTypes::Knight => 3,
            PieceTypes::Bishop => 3,
            PieceTypes::Queen => 9,
            PieceTypes::King => -1,
        }
    }

    /// The value of the piece type, written in decimal digits.
    pub open spec fn value_text(self) -> Seq<char> {
        match self {
            PieceTypes::Pawn => seq!['1'],
            PieceTypes::Rook => seq!['5'],
            PieceTypes::Knight => seq!['3'],
            PieceTypes::Bishop => seq!['3'],
            PieceTypes::Queen => seq!['9'],
            PieceTypes::King => seq!['-', '1'],
        }
    }

    /// The piece type that has the value `value`: of the two that are worth
    /// 3, the bishop.
    pub open spec fn valued(value: int) -> Option<PieceTypes> {
        if value == 1 {
            Some(PieceTypes::Pawn)
        } else if value == 3 {
            Some(PieceTypes::Bishop)
        } else if value == 5 {
            Some(PieceTypes::Rook)
        } else if value == 9 {
            Some(PieceTypes::Queen)
        } else if value == -1 {
            Some(PieceTypes::King)
        } else {
            None
        }
    }

    /// Writes the piece type as its name.
    pub fn to_string(&self) -> (text: String)
        ensures
            text@ == self.name(),
    {
        proof {
            reveal_strlit("p");
            reveal_strlit("r");
            reveal_strlit("n");
            reveal_strlit("b");
            reveal_strlit("q");
            reveal_strlit("k");
        }
        let text = match self {
            PieceTypes::Pawn => "p".to_owned(),
            PieceTypes::Rook => "r".to_owned(),
            PieceTypes::Knight => "n".to_owned(),
            PieceTypes::Bishop => "b".to_owned(),
            PieceTypes::Queen => "q".to_owned(),
            PieceTypes::King => "k".to_owned(),
        };
        assert(text@ =~= self.name());
        text
    }

    /// Reads a piece type from its name.
    pub fn from_str(text: &str) -> (parsed: Result<PieceTypes, UnknownName>)
        ensures
            parsed == match Self::named(text@) {
                Some(piece) => Ok::<PieceTypes, UnknownName>(piece),
                None => Err(UnknownName),
            },
    {
        proof {
            reveal_strlit("p");
            reveal_strlit("r");
            reveal_strlit("n");
            reveal_strlit("b");
            reveal_strlit("q");
            reveal_strlit("k");
            assert("p"@ =~= PieceTypes::Pawn.name());
            assert("r"@ =~= PieceTypes::Rook.name());
            assert("n"@ =~= PieceTypes::Knight.name());
            assert("b"@ =~= PieceTypes::Bishop.name());
            assert("q"@ =~= PieceTypes::Queen.name());
            assert("k"@ =~= PieceTypes::King.name());
        }
        if same_text(text, "p") {
            Ok(PieceTypes::Pawn)
        } else if same_text(text, "r") {
            Ok(PieceTypes::Rook)
        } else if same_text(text, "n") {
            Ok(PieceTypes::Knight)
        } else if same_text(text, "b") {
            Ok(PieceTypes::Bishop)
        } else if same_text(text, "q") {
            Ok(PieceTypes::Queen)
        } else if same_text(text, "k") {
            Ok(PieceTypes::King)
        } else {
            Err(UnknownName)
        }
    }

    /// Looks up a property of the piece type. The one property is `Value`:
    /// the value of the piece type, written in decimal digits.
    pub fn get_str(&self, prop: &str) -> (found: Option<&'static str>)
        ensures
            match found {
                Some(text) => prop@ == seq!['V', 'a', 'l', 'u', 'e'] && text@ == self.value_text(),
                None => prop@ != seq!['V', 'a', 'l', 'u', 'e'],
            },
    {
        proof {
            reveal_strlit("Value");
            reveal_strlit("1");
            reveal_strlit("5");
            reveal_strlit("3");
            reveal_strlit("9");
            reveal_strlit("-1");
            assert("Value"@ =~= seq!['V', 'a', 'l', 'u', 'e']);
        }
        if !same_text(prop, "Value") {
            return None;
        }
        let text = match self {
            PieceTypes::Pawn => "1",
            PieceTypes::Rook => "5",
            PieceTypes::Knight => "3",
            PieceTypes::Bishop => "3",
            PieceTypes::Queen => "9",
            PieceTypes::King => "-1",
        };
        assert(text@ =~= self.value_text());
        Some(text)
    }

    /// The piece type that has the value `value`. Knight and bishop are both
    /// worth 3: the value 3 gives the bishop.
    pub fn try_from(value: isize) -> (found: Result<PieceTypes, &'static str>)
        ensures
            match Self::valued(value as int) {
                Some(piece) => found == Ok::<PieceTypes, &'static str>(piece),
                None => found matches Err(reason) && reason@ == "Unknown Chess Piece type"@,
            },
    {
        match value {
            1 => Ok(PieceTypes::Pawn),
            3 => Ok(PieceTypes::Bishop),
            5 => Ok(PieceTypes::Rook),
            9 => Ok(PieceTypes::Queen),
            -1 => Ok(PieceTypes::King),
            _ => Err("Unknown Chess Piece type"),
        }
    }

    /// A piece type found by its value has that value, and every piece type
    /// but the knight is found by its value.
    pub proof fn lemma_valued(piece: PieceTypes, value: int)
        ensures
            Self::valued(value) == Some(piece) ==> piece.value() == value,
            piece != PieceTypes::Knight ==> Self::valued(piece.value()) == Some(piece),
    {
    }
}

} // verus!
