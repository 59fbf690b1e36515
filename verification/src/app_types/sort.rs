//! The columns the prefix list can be sorted by.
use vstd::prelude::*;

verus! {

/// A column of the prefix table.
#[derive(Debug, Clone, Copy, PartialEq, Eq, Hash, Structural)]
pub enum SortColumn {
    Name,
    AppId,
    Size,
    Installed,
    Cloud,
}

/// The position of a column in the cycle Name, AppId, Size, Installed, Cloud.
pub open spec fn column_position(c: SortColumn) -> nat {
    match c {
        SortColumn::Name => 0,
        SortColumn::AppId => 1,
        SortColumn::Size => 2,
        SortColumn::Installed => 3,
        SortColumn::Cloud => 4,
    }
}

/// The column at a position of the cycle (taken modulo 5).
pub open spec fn column_at(i: nat) -> SortColumn {
    let k = i % 5;
    if k == 0 {
        SortColumn::Name
    } else if k == 1 {
        SortColumn::AppId
    } else if k == 2 {
        SortColumn::Size
    } else if k == 3 {
        SortColumn::Installed
    } else {
        SortColumn::Cloud
    }
}

/// Whether a column sorts ascending by default: name and app id ascend;
/// size, installed and cloud start with the largest / true values first.
pub open spec fn default_ascending(c: SortColumn) -> bool {
    match c {
        SortColumn::Name => true,
        SortColumn::AppId => true,
        _ => false,
    }
}

impl SortColumn {
    /// The next column to the right, wrapping from Cloud to Name.
    pub fn next(self) -> (r: Self)
        ensures
            r == column_at(column_position(self) + 1),
    {
        match self {
            Self::Name => Self::AppId,
            Self::AppId => Self::Size,
            Self::Size => Self::Installed,
            Self::Installed => Self::Cloud,
            Self::Cloud => Self::Name,
        }
    }

    /// The next column to the left, wrapping from Name to Cloud.
    pub fn prev(self) -> (r: Self)
        ensures
            r == column_at(column_position(self) + 4),
    {
        match self {
            Self::Name => Self::Cloud,
            Self::AppId => Self::Name,
            Self::Size => Self::AppId,
            Self::Installed => Self::Size,
            Self::Cloud => Self::Installed,
        }
    }

    /// The column's position, 0 to 4.
    pub fn index(self) -> (r: usize)
        ensures
            r == column_position(self),
    {
        match self {
            Self::Name => 0,
            Self::AppId => 1,
            Self::Size => 2,
            Self::Installed => 3,
            Self::Cloud => 4,
        }
    }

    /// Default sort direction for each column (true = ascending).
    pub fn default_asc(self) -> (r: bool)
        ensures
            r == default_ascending(self),
    {
        match self {
            Self::Name => true,
            Self::AppId => true,
            Self::Size => false,
            Self::Installed => false,
            Self::Cloud => false,
        }
    }
}

/// Moving right then left, or left then right, comes back to the same column.
pub proof fn lemma_next_prev_inverse(c: SortColumn)
    ensures
        column_at(column_position(column_at(column_position(c) + 1)) + 4) == c,
        column_at(column_position(column_at(column_position(c) + 4)) + 1) == c,
{
}

/// Five steps to the right visit every column once and come back.
pub proof fn lemma_next_cycles(c: SortColumn)
    ensures
        column_at(column_position(c)) == c,
        column_at(column_position(c) + 5) == c,
        forall|i: nat, j: nat| i < j < i + 5 ==> column_at(i) != column_at(j),
{
    assert forall|i: nat, j: nat| i < j < i + 5 implies column_at(i) != column_at(j) by {
        assert(i % 5 != j % 5) by (nonlinear_arith)
            requires
                i < j < i + 5,
        ;
    }
}

/// Each column's position names it back.
pub proof fn lemma_index_names_column(c: SortColumn)
    ensures
        column_position(c) < 5,
        column_at(column_position(c)) == c,
{
}

} // verus!
