//! The line that a border is drawn with.

use crate::scalar::{find_symbol, fingerprint, is_first, lemma_symbol_round_trip, symbol_index};
use vstd::prelude::*;
use vstd::string::StringExecFns;

verus! {

/// The line that a border is drawn with.
#[derive(Clone, Copy, Debug, PartialEq, Eq, Structural)]
pub enum BorderStyle {
    Single,
    DashDotStroked,
    Dashed,
    DashSmallGap,
    DotDash,
    DotDotDash,
    Dotted,
    Double,
    DoubleWave,
    Inset,
    Nil,
    NoBorder,
    Outset,
    Thick,
    Triple,
    Wave,
}

impl BorderStyle {
    /// The texts of the values, each at the index of its value.
    pub open spec fn symbols_spec() -> Seq<Seq<char>> {
        seq!["single"@, "dashDotStroked"@, "dashed"@, "dashSmallGap"@, "dotDash"@, "dotDotDash"@, "dotted"@, "double"@, "doubleWave"@, "inset"@, "nil"@, "none"@, "outset"@, "thick"@, "triple"@, "wave"@]
    }

    /// The texts of the values, each at the index of its value.
    pub fn symbols() -> (table: Vec<String>)
        ensures
            Seq::new(table@.len(), |i: int| table@[i]@) == Self::symbols_spec(),
    {
        let mut table: Vec<String> = Vec::new();
        table.push(String::from_str("single"));
        table.push(String::from_str("dashDotStroked"));
        table.push(String::from_str("dashed"));
        table.push(String::from_str("dashSmallGap"));
        table.push(String::from_str("dotDash"));
        table.push(String::from_str("dotDotDash"));
        table.push(String::from_str("dotted"));
        table.push(String::from_str("double"));
        table.push(String::from_str("doubleWave"));
        table.push(String::from_str("inset"));
        table.push(String::from_str("nil"));
        table.push(String::from_str("none"));
        table.push(String::from_str("outset"));
        table.push(String::from_str("thick"));
        table.push(String::from_str("triple"));
        table.push(String::from_str("wave"));
        assert(Seq::new(table@.len(), |i: int| table@[i]@) =~= Self::symbols_spec());
        table
    }

    /// The index of the value in the table of its texts.
    pub open spec fn index_spec(self) -> usize {
        match self {
            BorderStyle::Single => 0,
            BorderStyle::DashDotStroked => 1,
            BorderStyle::Dashed => 2,
            BorderStyle::DashSmallGap => 3,
            BorderStyle::DotDash => 4,
            BorderStyle::DotDotDash => 5,
            BorderStyle::Dotted => 6,
            BorderStyle::Double => 7,
            BorderStyle::DoubleWave => 8,
            BorderStyle::Inset => 9,
            BorderStyle::Nil => 10,
            BorderStyle::NoBorder => 11,
            BorderStyle::Outset => 12,
            BorderStyle::Thick => 13,
            BorderStyle::Triple => 14,
            BorderStyle::Wave => 15,
        }
    }

    /// The index of the value in the table of its texts.
    pub fn index(&self) -> (i: usize)
        ensures
            i == self.index_spec(),
            i < 16,
    {
        match self {
            BorderStyle::Single => 0,
            BorderStyle::DashDotStroked => 1,
            BorderStyle::Dashed => 2,
            BorderStyle::DashSmallGap => 3,
            BorderStyle::DotDash => 4,
            BorderStyle::DotDotDash => 5,
            BorderStyle::Dotted => 6,
            BorderStyle::Double => 7,
            BorderStyle::DoubleWave => 8,
            BorderStyle::Inset => 9,
            BorderStyle::Nil => 10,
            BorderStyle::NoBorder => 11,
            BorderStyle::Outset => 12,
            BorderStyle::Thick => 13,
            BorderStyle::Triple => 14,
            BorderStyle::Wave => 15,
        }
    }

    /// The value at an index of the table.
    pub fn from_index(i: usize) -> (r: BorderStyle)
        requires
            i < 16,
        ensures
            r.index_spec() == i,
    {
        if i == 0 {
            BorderStyle::Single
        } else if i == 1 {
            BorderStyle::DashDotStroked
        } else if i == 2 {
            BorderStyle::Dashed
        } else if i == 3 {
            BorderStyle::DashSmallGap
        } else if i == 4 {
            BorderStyle::DotDash
        } else if i == 5 {
            BorderStyle::DotDotDash
        } else if i == 6 {
            BorderStyle::Dotted
        } else if i == 7 {
            BorderStyle::Double
        } else if i == 8 {
            BorderStyle::DoubleWave
        } else if i == 9 {
            BorderStyle::Inset
        } else if i == 10 {
            BorderStyle::Nil
        } else if i == 11 {
            BorderStyle::NoBorder
        } else if i == 12 {
            BorderStyle::Outset
        } else if i == 13 {
            BorderStyle::Thick
        } else if i == 14 {
            BorderStyle::Triple
        } else {
            BorderStyle::Wave
        }
    }

    /// The text of the value.
    pub fn as_str(&self) -> (s: &'static str)
        ensures
            s@ == Self::symbols_spec()[self.index_spec() as int],
    {
        match self {
            BorderStyle::Single => "single",
            BorderStyle::DashDotStroked => "dashDotStroked",
            BorderStyle::Dashed => "dashed",
            BorderStyle::DashSmallGap => "dashSmallGap",
            BorderStyle::DotDash => "dotDash",
            BorderStyle::DotDotDash => "dotDotDash",
            BorderStyle::Dotted => "dotted",
            BorderStyle::Double => "double",
            BorderStyle::DoubleWave => "doubleWave",
            BorderStyle::Inset => "inset",
            BorderStyle::Nil => "nil",
            BorderStyle::NoBorder => "none",
            BorderStyle::Outset => "outset",
            BorderStyle::Thick => "thick",
            BorderStyle::Triple => "triple",
            BorderStyle::Wave => "wave",
        }
    }

    /// The value that a text denotes; `None` for a text that is not in the
    /// table.
    pub fn from_str(s: &str) -> (r: Option<BorderStyle>)
        ensures
            symbol_index(Self::symbols_spec(), s@) == match r {
                Some(v) => Some(v.index_spec()),
                None => None,
            },
    {
        let table = Self::symbols();
        match find_symbol(&table, s) {
            Some(i) => {
                assert(is_first(Self::symbols_spec(), s@, i as int));
                Some(Self::from_index(i))
            },
            None => None,
        }
    }

    /// No two values have the same text.
    pub proof fn lemma_symbols_distinct()
        ensures
            Self::symbols_spec().len() == 16,
            forall|a: int, b: int|
                0 <= a < b < 16 ==> #[trigger] Self::symbols_spec()[a] != #[trigger] Self::symbols_spec()[b],
    {
        reveal_strlit("single");
        reveal_strlit("dashDotStroked");
        reveal_strlit("dashed");
        reveal_strlit("dashSmallGap");
        reveal_strlit("dotDash");
        reveal_strlit("dotDotDash");
        reveal_strlit("dotted");
        reveal_strlit("double");
        reveal_strlit("doubleWave");
        reveal_strlit("inset");
        reveal_strlit("nil");
        reveal_strlit("none");
        reveal_strlit("outset");
        reveal_strlit("thick");
        reveal_strlit("triple");
        reveal_strlit("wave");
        assert(fingerprint("single"@, 1, 0) == (6int, 'i', 'e'));
        assert(fingerprint("dashDotStroked"@, 1, 0) == (14int, 'a', 'd'));
        assert(fingerprint("dashed"@, 1, 0) == (6int, 'a', 'd'));
        assert(fingerprint("dashSmallGap"@, 1, 0) == (12int, 'a', 'p'));
        assert(fingerprint("dotDash"@, 1, 0) == (7int, 'o', 'h'));
        assert(fingerprint("dotDotDash"@, 1, 0) == (10int, 'o', 'h'));
        assert(fingerprint("dotted"@, 1, 0) == (6int, 'o', 'd'));
        assert(fingerprint("double"@, 1, 0) == (6int, 'o', 'e'));
        assert(fingerprint("doubleWave"@, 1, 0) == (10int, 'o', 'e'));
        assert(fingerprint("inset"@, 1, 0) == (5int, 'n', 't'));
        assert(fingerprint("nil"@, 1, 0) == (3int, 'i', 'l'));
        assert(fingerprint("none"@, 1, 0) == (4int, 'o', 'e'));
        assert(fingerprint("outset"@, 1, 0) == (6int, 'u', 't'));
        assert(fingerprint("thick"@, 1, 0) == (5int, 'h', 'k'));
        assert(fingerprint("triple"@, 1, 0) == (6int, 'r', 'e'));
        assert(fingerprint("wave"@, 1, 0) == (4int, 'a', 'e'));
        let t = Self::symbols_spec();
        assert forall|a: int, b: int| 0 <= a < b < 16 implies #[trigger] t[a] != #[trigger] t[b] by {
            assert(fingerprint(t[a], 1, 0) != fingerprint(t[b], 1, 0));
        }
    }

    /// Every value is read back from its text.
    pub proof fn lemma_text_round_trip(v: BorderStyle)
        ensures
            symbol_index(Self::symbols_spec(), Self::symbols_spec()[v.index_spec() as int]) == Some(
                v.index_spec(),
            ),
    {
        Self::lemma_symbols_distinct();
        lemma_symbol_round_trip(Self::symbols_spec(), v.index_spec() as int);
    }
}

} // verus!
