//! Standard column type names, column affinities and the engine's own
//! ASCII character classes.
use vstd::prelude::*;

verus! {

/// Largest value of a `u64` that also fits a `u32`.
pub const SQLITE_MAX_U32: u64 = 0xffffffff;

/// Page numbers.
pub type Pgno = u32;

/// Number of standard types.
pub const SQLITE_N_STDTYPE: u8 = 6;

/// Standard column type names; numbered from 1 in the order given here.
#[derive(Copy, Clone, Debug, PartialEq, Eq, Structural)]
pub enum StdType {
    Any,
    Blob,
    Int,
    Integer,
    Real,
    Text,
}

/// Column affinity types, coded from `'@'` (0x40) upward in the order given
/// here, so that the numeric affinities form one range and BLOB comes first.
#[derive(Copy, Clone, Debug, PartialEq, Eq, Structural)]
pub enum SQLITE_AFF {
    NONE,
    BLOB,
    TEXT,
    NUMERIC,
    INTEGER,
    REAL,
    FLEXNUM,
}

impl SQLITE_AFF {
    /// The code of each affinity.
    pub open spec fn spec_code(self) -> i8 {
        match self {
            SQLITE_AFF::NONE => 0x40,
            SQLITE_AFF::BLOB => 0x41,
            SQLITE_AFF::TEXT => 0x42,
            SQLITE_AFF::NUMERIC => 0x43,
            SQLITE_AFF::INTEGER => 0x44,
            SQLITE_AFF::REAL => 0x45,
            SQLITE_AFF::FLEXNUM => 0x46,
        }
    }
}

impl From<SQLITE_AFF> for i8 {
    /// The affinity's code.
    fn from(a: SQLITE_AFF) -> (r: i8) {
        match a {
            SQLITE_AFF::NONE => 0x40,
            SQLITE_AFF::BLOB => 0x41,
            SQLITE_AFF::TEXT => 0x42,
            SQLITE_AFF::NUMERIC => 0x43,
            SQLITE_AFF::INTEGER => 0x44,
            SQLITE_AFF::REAL => 0x45,
            SQLITE_AFF::FLEXNUM => 0x46,
        }
    }
}

impl vstd::std_specs::convert::FromSpecImpl<SQLITE_AFF> for i8 {
    open spec fn obeys_from_spec() -> bool {
        true
    }

    open spec fn from_spec(a: SQLITE_AFF) -> i8 {
        a.spec_code()
    }
}

impl StdType {
    /// The number of each type.
    pub open spec fn spec_code(self) -> u8 {
        match self {
            StdType::Any => 1,
            StdType::Blob => 2,
            StdType::Int => 3,
            StdType::Integer => 4,
            StdType::Real => 5,
            StdType::Text => 6,
        }
    }

    /// The name of each type.
    pub open spec fn spec_name(self) -> Seq<char> {
        match self {
            StdType::Any => seq!['A', 'N', 'Y'],
            StdType::Blob => seq!['B', 'L', 'O', 'B'],
            StdType::Int => seq!['I', 'N', 'T'],
            StdType::Integer => seq!['I', 'N', 'T', 'E', 'G', 'E', 'R'],
            StdType::Real => seq!['R', 'E', 'A', 'L'],
            StdType::Text => seq!['T', 'E', 'X', 'T'],
        }
    }

    /// The affinity of each type.
    pub open spec fn spec_affinity(self) -> SQLITE_AFF {
        match self {
            StdType::Any => SQLITE_AFF::NUMERIC,
            StdType::Blob => SQLITE_AFF::BLOB,
            StdType::Int => SQLITE_AFF::INTEGER,
            StdType::Integer => SQLITE_AFF::INTEGER,
            StdType::Real => SQLITE_AFF::REAL,
            StdType::Text => SQLITE_AFF::TEXT,
        }
    }

    /// The type numbered `u`, if there is one.
    pub fn from_u8(u: u8) -> (r: Option<StdType>)
        ensures
            r is Some <==> 1 <= u <= SQLITE_N_STDTYPE,
            r is Some ==> r->0.spec_code() == u,
    {
        match u {
            1 => Some(StdType::Any),
            2 => Some(StdType::Blob),
            3 => Some(StdType::Int),
            4 => Some(StdType::Integer),
            5 => Some(StdType::Real),
            6 => Some(StdType::Text),
            _ => None,
        }
    }

    /// The name of the type.
    pub fn name(&self) -> (r: &'static str)
        ensures
            r@ == self.spec_name(),
    {
        match self {
            StdType::Any => {
                proof {
                    reveal_strlit("ANY");
                }
                "ANY"
            },
            StdType::Blob => {
                proof {
                    reveal_strlit("BLOB");
                }
                "BLOB"
            },
            StdType::Int => {
                proof {
                    reveal_strlit("INT");
                }
                "INT"
            },
            StdType::Integer => {
                proof {
                    reveal_strlit("INTEGER");
                }
                "INTEGER"
            },
            StdType::Real => {
                proof {
                    reveal_strlit("REAL");
                }
                "REAL"
            },
            StdType::Text => {
                proof {
                    reveal_strlit("TEXT");
                }
                "TEXT"
            },
        }
    }

    /// The length in bytes of the type's name.
    pub fn name_len(&self) -> (r: usize)
        ensures
            r == self.spec_name().len(),
    {
        match self {
            StdType::Any => 3,
            StdType::Blob => 4,
            StdType::Int => 3,
            StdType::Integer => 7,
            StdType::Real => 4,
            StdType::Text => 4,
        }
    }

    /// The affinity associated with the type.
    pub fn affinity(&self) -> (r: SQLITE_AFF)
        ensures
            r == self.spec_affinity(),
    {
        match self {
            StdType::Any => SQLITE_AFF::NUMERIC,
            StdType::Blob => SQLITE_AFF::BLOB,
            StdType::Int => SQLITE_AFF::INTEGER,
            StdType::Integer => SQLITE_AFF::INTEGER,
            StdType::Real => SQLITE_AFF::REAL,
            StdType::Text => SQLITE_AFF::TEXT,
        }
    }
}

/// The engine's white-space class: tab, line feed, vertical tab, form
/// feed, carriage return and space, whatever the locale.
pub open spec fn spec_is_space(c: u8) -> bool {
    c == 0x20 || (0x09 <= c && c <= 0x0d)
}

/// Whether `c` is white space in the engine's sense.
pub fn is_space(c: u8) -> (r: bool)
    ensures
        r == spec_is_space(c),
{
    c == 0x20 || (0x09 <= c && c <= 0x0d)
}

} // verus!
