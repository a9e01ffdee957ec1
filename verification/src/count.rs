//! The count that the board, the reporter and the host share.
use portable_atomic::AtomicU32;
use vstd::prelude::*;

verus! {

#[verifier::external_type_specification]
#[verifier::external_body]
pub struct ExAtomicU32(portable_atomic::AtomicU32);

/// The number that an atomic cell holds.
pub uninterp spec fn atomic_value(cell: AtomicU32) -> u32;

/// `AtomicU32::new`: a cell that holds the number.
#[verifier::external_body]
fn atomic_new(value: u32) -> (cell: AtomicU32)
    ensures
        atomic_value(cell) == value,
{
    AtomicU32::new(value)
}

/// `AtomicU32::load`: gives the number that the cell holds. The cell is borrowed
/// mutably, so that nobody else can store into it meanwhile.
#[verifier::external_body]
fn atomic_load(cell: &mut AtomicU32) -> (value: u32)
    ensures
        value == atomic_value(*old(cell)),
        atomic_value(*final(cell)) == atomic_value(*old(cell)),
{
    cell.load(portable_atomic::Ordering::Relaxed)
}

/// `AtomicU32::store`: has the cell hold the number. The cell is borrowed mutably, so
/// that nobody else can store into it meanwhile.
#[verifier::external_body]
fn atomic_store(cell: &mut AtomicU32, value: u32)
    ensures
        atomic_value(*final(cell)) == value,
{
    cell.store(value, portable_atomic::Ordering::Relaxed)
}

/// The shared count.
pub struct SharedCount {
    times: AtomicU32,
}

impl View for SharedCount {
    type V = u32;

    closed spec fn view(&self) -> u32 {
        atomic_value(self.times)
    }
}

impl SharedCount {
    /// A count that starts at 0.
    pub fn new() -> (count: Self)
        ensures
            count@ == 0,
    {
        SharedCount { times: atomic_new(0) }
    }

    /// Where the count stands.
    pub fn load(&mut self) -> (times: u32)
        ensures
            times == old(self)@,
            final(self)@ == old(self)@,
    {
        atomic_load(&mut self.times)
    }

    /// Sets the count.
    pub fn store(&mut self, times: u32)
        ensures
            final(self)@ == times,
    {
        atomic_store(&mut self.times, times);
    }
}

}
