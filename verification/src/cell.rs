//! A write-once cell for the serialized bytes of a strip, kept in a
//! `lazycell::LazyCell`.
//!
//! The contracts here are believed, not proved: they state what the source
//! of `lazycell` shows. A `LazyCell` can be filled through a shared
//! reference. This crate never does so: the one function that fills a cell
//! takes it by mutable reference, so what a cell holds is a function of its
//! value.

use lazycell::LazyCell;
use vstd::prelude::*;

verus! {

/// `lazycell::LazyCell`, of which the verifier sees nothing inside.
#[verifier::external_type_specification]
#[verifier::external_body]
#[verifier::reject_recursive_types(T)]
pub struct ExLazyCell<T>(LazyCell<T>);

/// The bytes that a cell holds, or `None` while it is empty.
pub uninterp spec fn cell_contents(cell: LazyCell<Vec<u8>>) -> Option<Seq<u8>>;

/// `LazyCell::new`: the new cell is empty.
#[verifier::external_body]
pub(crate) fn empty_cell() -> (cell: LazyCell<Vec<u8>>)
    ensures
        cell_contents(cell) is None,
{
    LazyCell::new()
}

/// `LazyCell::filled`: whether the cell holds a value.
#[verifier::external_body]
pub(crate) fn cell_filled(cell: &LazyCell<Vec<u8>>) -> (filled: bool)
    ensures
        filled == cell_contents(*cell).is_some(),
{
    cell.filled()
}

/// `LazyCell::fill`: an empty cell takes the value and the call returns
/// `Ok`; a filled cell stays as it is and the value comes back in `Err`.
/// The call does not panic. `fill` itself asks only for a shared reference;
/// the cell is taken by mutable reference here so that the change shows in
/// the contract.
#[verifier::external_body]
pub(crate) fn fill_cell(cell: &mut LazyCell<Vec<u8>>, value: Vec<u8>) -> (outcome: Result<(), Vec<u8>>)
    ensures
        cell_contents(*old(cell)) is None ==> outcome is Ok
            && cell_contents(*final(cell)) == Some(value@),
        cell_contents(*old(cell)) is Some ==> outcome is Err && outcome->Err_0 == value
            && cell_contents(*final(cell)) == cell_contents(*old(cell)),
    no_unwind
{
    cell.fill(value)
}

/// `LazyCell::borrow`: a reference to the value of a filled cell, `None` for
/// an empty one.
#[verifier::external_body]
pub(crate) fn borrow_cell(cell: &LazyCell<Vec<u8>>) -> (value: Option<&Vec<u8>>)
    ensures
        match value {
            Some(bytes) => cell_contents(*cell) == Some(bytes@),
            None => cell_contents(*cell) is None,
        },
{
    cell.borrow()
}

} // verus!
