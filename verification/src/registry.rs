//! The hot-swap cell: the filter that is current, replaceable from any thread
//! while other threads read it.

use crate::filter::{Filter, FilterView};
use arc_swap::ArcSwap;
use std::sync::Arc;
use vstd::prelude::*;

verus! {

/// An `arc_swap::ArcSwap` that holds the current filter. What it holds can
/// change under a shared reference, so its content is no part of its value:
/// two cells are equal when they are the same cell.
#[verifier::external_body]
#[derive(Debug)]
pub struct FilterCell {
    inner: ArcSwap<Filter>,
}

/// The filter that a cell was made with. This is fixed when the cell is made;
/// it says nothing of what the cell holds later.
pub uninterp spec fn made_with(cell: FilterCell) -> FilterView;

/// The filters that have been put into a cell: the one it was made with and
/// those that were swapped in. What the cell holds at any moment is one of
/// them.
pub uninterp spec fn put_in(cell: FilterCell) -> Set<FilterView>;

/// `ArcSwap::from_pointee`: a new cell, made with `filter` as what it holds.
#[verifier::external_body]
fn cell_new(filter: Filter) -> (cell: FilterCell)
    ensures
        made_with(cell) == filter@,
        put_in(cell).contains(filter@),
{
    FilterCell { inner: ArcSwap::from_pointee(filter) }
}

/// `ArcSwapAny::load_full`: the filter that the cell holds at the moment of
/// the call. Another thread may have put it there, so of which one it is no
/// more is claimed than that it is one that was put into the cell, whole.
#[verifier::external_body]
fn cell_load(cell: &FilterCell) -> (r: Arc<Filter>)
    ensures
        put_in(*cell).contains(r@),
{
    cell.inner.load_full()
}

/// `ArcSwapAny::swap`: puts `filter` into the cell and hands back what it
/// held. What comes back is one of the filters that were put into the cell;
/// of which one no more is claimed.
#[verifier::external_body]
fn cell_swap(cell: &FilterCell, filter: Arc<Filter>) -> (r: Arc<Filter>)
    ensures
        put_in(*cell).contains(r@),
{
    cell.inner.swap(filter)
}

/// `Arc::clone`: another reference to the same cell.
#[verifier::external_body]
fn cell_share(cell: &Arc<FilterCell>) -> (r: Arc<FilterCell>)
    ensures
        r == cell,
{
    Arc::clone(cell)
}

/// A handle on the current filter. Handles made by `share` refer to one cell:
/// what one installs, the others read.
#[derive(Debug)]
pub struct FilterHandle {
    cell: Arc<FilterCell>,
}

impl FilterHandle {
    /// The filter that the handle's cell was made with.
    pub closed spec fn initial(&self) -> FilterView {
        made_with(*self.cell)
    }

    /// The filters that have been put into the handle's cell: the one it
    /// was made with and those that were installed.
    pub closed spec fn held(&self) -> Set<FilterView> {
        put_in(*self.cell)
    }

    /// A new cell with `initial` as the current filter.
    pub fn new(initial: Filter) -> (h: FilterHandle)
        ensures
            h.initial() == initial@,
            h.held().contains(initial@),
    {
        FilterHandle { cell: Arc::new(cell_new(initial)) }
    }

    /// Whether two handles refer to the same cell.
    pub closed spec fn same_cell(&self, other: &FilterHandle) -> bool {
        self.cell == other.cell
    }

    /// Another handle on the same cell.
    pub fn share(&self) -> (h: FilterHandle)
        ensures
            h.same_cell(self),
            self.same_cell(&h),
            h.initial() == self.initial(),
            h.held() == self.held(),
    {
        FilterHandle { cell: cell_share(&self.cell) }
    }

    /// The filter that is current at the moment of the call: a whole
    /// snapshot, which stays as it is for as long as the caller holds it,
    /// whatever is installed afterwards.
    pub fn current(&self) -> (r: Arc<Filter>)
        ensures
            self.held().contains(r@),
    {
        cell_load(&self.cell)
    }

    /// Makes `filter` the current filter and hands back the one it replaces.
    pub fn install(&self, filter: Filter) -> (r: Arc<Filter>)
        ensures
            self.held().contains(r@),
    {
        cell_swap(&self.cell, Arc::new(filter))
    }
}

} // verus!
