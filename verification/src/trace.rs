//! Execution trace fragments.
//!
//! A [`TraceFragment`] gathers columns (or leading column fragments) of an
//! execution trace so that a component can fill them cell by cell. A
//! fragment owns its columns; pushing a column keeps its first `len` cells
//! and hands the unused tail back to the caller, so no mutable borrow needs
//! to live inside a field.

use vstd::prelude::*;

verus! {

/// Hints used to construct the auxiliary trace columns: for now only the
/// range checker contributes.
pub struct AuxTraceHints {
    pub range: crate::range::AuxTraceHints,
}

/// A set of columns (or column fragments) of an execution trace.
pub struct TraceFragment {
    pub data: Vec<Vec<miden_core::Felt>>,
}

impl TraceFragment {
    /// Creates a new `TraceFragment` with its data allocated to the
    /// specified capacity.
    pub fn new(capacity: usize) -> (r: Self)
        ensures
            r.data@.len() == 0,
    {
        TraceFragment { data: Vec::with_capacity(capacity) }
    }

    /// Returns the number of columns in this execution trace fragment.
    pub fn width(&self) -> (r: usize)
        ensures
            r == self.data@.len(),
    {
        self.data.len()
    }

    /// Returns the number of rows in this execution trace fragment.
    pub fn len(&self) -> (r: usize)
        requires
            self.data@.len() > 0,
        ensures
            r == self.data@[0]@.len(),
    {
        self.data[0].len()
    }

    /// Updates a single cell in this fragment with the provided value.
    pub fn set(&mut self, row_idx: usize, col_idx: usize, value: miden_core::Felt)
        requires
            col_idx < old(self).data@.len(),
            row_idx < old(self).data@[col_idx as int]@.len(),
        ensures
            final(self).data@.len() == old(self).data@.len(),
            final(self).data@[col_idx as int]@ == old(self).data@[col_idx as int]@.update(
                row_idx as int,
                value,
            ),
            forall|k: int|
                0 <= k < old(self).data@.len() && k != col_idx ==> final(self).data@[k] == old(
                    self,
                ).data@[k],
    {
        self.data[col_idx][row_idx] = value;
    }

    /// Returns the columns of this fragment.
    pub fn columns(&self) -> (r: &Vec<Vec<miden_core::Felt>>)
        ensures
            r@ == self.data@,
    {
        &self.data
    }

    /// Adds a new column to this fragment: the first `len` cells of the
    /// provided column become the fragment's new last column, and the rest
    /// of the column is returned.
    pub fn push_column_slice(&mut self, column: Vec<miden_core::Felt>, len: usize) -> (rest: Vec<
        miden_core::Felt,
    >)
        requires
            len <= column@.len(),
        ensures
            final(self).data@.len() == old(self).data@.len() + 1,
            forall|k: int|
                0 <= k < old(self).data@.len() ==> #[trigger] final(self).data@[k] == old(
                    self,
                ).data@[k],
            final(self).data@[old(self).data@.len() as int]@ == column@.subrange(0, len as int),
            rest@ == column@.subrange(len as int, column@.len() as int),
    {
        let mut fragment: Vec<miden_core::Felt> = Vec::with_capacity(len);
        let mut i: usize = 0;
        while i < len
            invariant
                len <= column@.len(),
                i <= len,
                fragment@.len() == i,
                forall|j: int| 0 <= j < i ==> #[trigger] fragment@[j] == column@[j],
            decreases len - i,
        {
            fragment.push(column[i]);
            i += 1;
        }
        let mut rest: Vec<miden_core::Felt> = Vec::new();
        let mut i: usize = len;
        while i < column.len()
            invariant
                len <= i <= column@.len(),
                rest@.len() == i - len,
                forall|j: int| 0 <= j < i - len ==> #[trigger] rest@[j] == column@[j + len],
            decreases column@.len() - i,
        {
            rest.push(column[i]);
            i += 1;
        }
        self.data.push(fragment);
        proof {
            assert(fragment@ =~= column@.subrange(0, len as int));
            assert(rest@ =~= column@.subrange(len as int, column@.len() as int));
        }
        rest
    }

    /// Wraps a full set of trace columns as a fragment.
    pub fn trace_to_fragment(trace: Vec<Vec<miden_core::Felt>>) -> (r: Self)
        ensures
            r.data@ == trace@,
    {
        Self { data: trace }
    }
}

} // verus!
