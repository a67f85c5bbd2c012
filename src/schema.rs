//! Small value types stored in the engine's b-tree, schema, parser and
//! query-planner objects. Each enum is stored as a byte, numbered from 0 in
//! the order its variants are given.
use vstd::prelude::*;

verus! {

/// Bitmask of the tables of a join.
pub type Bitmask = u64;

/// Logarithmic estimate of a count: ten times the base-2 logarithm.
pub type LogEst = i16;

/// How many OR-clause costs a `WhereOrSet` keeps.
pub const N_OR_COST: usize = 3;

/// Authentication level of a connection.
#[derive(Copy, Clone, Debug, PartialEq, Eq, Structural)]
pub enum UAUTH {
    /// Authentication not yet checked
    Unknown,
    /// User authentication failed
    Fail,
    /// Authenticated as a normal user
    User,
    /// Authenticated as an administrator
    Admin,
}

/// State of a b-tree cursor.
#[derive(Copy, Clone, Debug, PartialEq, Eq, Structural)]
pub enum CURSOR {
    /// The cursor points to a valid entry.
    VALID,
    /// The cursor does not point to a valid entry, for example because the
    /// table is empty.
    INVALID,
    /// Valid, but the next step forward or back is to be skipped.
    SKIPNEXT,
    /// The table changed since the cursor was last used; its position was
    /// saved and must be sought again.
    REQUIRESEEK,
    /// An unrecoverable error on another connection sharing the cache.
    FAULT,
}

/// What the name of a result-set expression holds.
#[derive(Copy, Clone, Debug, PartialEq, Eq, Structural)]
pub enum ENAME {
    /// The AS clause of a result set
    NAME,
    /// Complete text of the result set expression
    SPAN,
    /// "DB.TABLE.NAME" for the result set
    TAB,
}

/// Which member of an identifier-list item's union is in use.
#[derive(Copy, Clone, Debug, PartialEq, Eq, Structural)]
pub enum EU4 {
    /// Neither
    NONE,
    /// The index
    IDX,
    /// The expression
    EXPR,
}

/// Kind of an index.
#[derive(Copy, Clone, Debug, PartialEq, Eq, Structural)]
pub enum SQLITE_IDXTYPE {
    /// Created using CREATE INDEX
    APPDEF,
    /// Implements a UNIQUE constraint
    UNIQUE,
    /// Is the PRIMARY KEY for the table
    PRIMARYKEY,
    /// INTEGER PRIMARY KEY index
    IPK,
}

/// Kind of a table.
#[derive(Copy, Clone, Debug, PartialEq, Eq, Structural)]
pub enum TABTYP {
    /// Ordinary table
    NORM,
    /// Virtual table
    VTAB,
    /// A view
    VIEW,
}

/// Risk level of a virtual table.
#[derive(Copy, Clone, Debug, PartialEq, Eq, Structural)]
pub enum SQLITE_VTABRISK {
    Low,
    Normal,
    High,
}

/// Ordering data of a result-set expression.
pub struct ExprList_item_u_x {
    /// For ORDER BY, column number in result set
    iOrderByCol: u16,
    /// Index of the alias of the name
    iAlias: u16,
}

/// Prerequisites and cost of running a subquery on one operand of an OR
/// in a WHERE clause.
pub struct WhereOrCost {
    /// Prerequisites
    prereq: Bitmask,
    /// Cost of running this subquery
    rRun: LogEst,
    /// Number of outputs for this subquery
    nOut: LogEst,
}

/// The best `N_OR_COST` costs of the subqueries of an OR clause.
pub struct WhereOrSet {
    /// Number of valid entries of `a`
    n: u16,
    /// Set of best costs
    a: [WhereOrCost; N_OR_COST],
}

} // verus!
