//! Flavors for generators that may move between threads
use vstd::prelude::*;

use crate::{usage_check, CellSlot, GeneratorFlavor, HeapFlavor, StackFlavor, Suspendable};

verus! {

/// Synchronized single-slot container, the thread-safe counterpart of a `RefCell`
///
/// A lock flag guards the value. Borrowing takes the flag and checks the value out into a
/// [`SyncRefMut`] guard; handing the guard back to [`release`](Self::release) puts the value back
/// and clears the flag. Borrowing while the flag is taken is a logic error and panics instead of
/// waiting. Being made of plain fields, the cell can be sent and shared across threads whenever
/// its value can.
pub struct SyncRefCell<T> {
    lock: bool,
    cell: Option<T>,
}

/// Exclusive access to the value of a borrowed [`SyncRefCell`]
pub struct SyncRefMut<T> {
    value: T,
}

impl<T> SyncRefCell<T> {
    /// The flag is taken exactly when the value is checked out
    pub closed spec fn wf(&self) -> bool {
        self.lock <==> self.cell is None
    }

    pub closed spec fn is_locked(&self) -> bool {
        self.lock
    }

    /// The value held while the cell is not borrowed
    pub closed spec fn value(&self) -> T {
        self.cell->Some_0
    }

    pub fn new(value: T) -> (r: Self)
        ensures
            r.wf(),
            !r.is_locked(),
            r.value() == value,
    {
        SyncRefCell { lock: false, cell: Some(value) }
    }

    /// Takes the lock and checks the value out; panics if it is already borrowed
    pub fn borrow_mut(&mut self) -> (r: SyncRefMut<T>)
        requires
            old(self).wf(),
            !old(self).is_locked(),
        ensures
            final(self).wf(),
            final(self).is_locked(),
            r.value() == old(self).value(),
    {
        usage_check(!self.lock, "already borrowed");
        self.lock = true;
        let value = self.cell.take().expect("already borrowed");
        SyncRefMut { value }
    }

    /// Puts the value of `guard` back and releases the lock
    pub fn release(&mut self, guard: SyncRefMut<T>)
        requires
            old(self).wf(),
            old(self).is_locked(),
        ensures
            final(self).wf(),
            !final(self).is_locked(),
            final(self).value() == guard.value(),
    {
        self.cell = Some(guard.value);
        self.lock = false;
    }

    /// One borrow/release cycle from `before` to `after`: the borrow observed `observed`, the
    /// value held before, and the release left `written` in the unlocked cell
    pub open spec fn cycled(before: Self, after: Self, written: T, observed: T) -> bool {
        &&& before.wf()
        &&& !before.is_locked()
        &&& after.wf()
        &&& !after.is_locked()
        &&& observed == before.value()
        &&& after.value() == written
    }

    /// Swaps the value for `other` under the lock, returning the previous value
    pub fn replace(&mut self, other: T) -> (r: T)
        requires
            old(self).wf(),
            !old(self).is_locked(),
        ensures
            Self::cycled(*old(self), *final(self), other, r),
    {
        let mut guard = self.borrow_mut();
        let previous = guard.replace(other);
        self.release(guard);
        previous
    }
}

impl<T> SyncRefMut<T> {
    pub closed spec fn value(&self) -> T {
        self.value
    }

    pub fn get(&self) -> (r: &T)
        ensures
            *r == self.value(),
    {
        &self.value
    }

    pub fn replace(&mut self, other: T) -> (r: T)
        ensures
            r == old(self).value(),
            final(self).value() == other,
    {
        let mut other = other;
        core::mem::swap(&mut self.value, &mut other);
        other
    }
}

/// Thread safe flavor whose computation is stored inline
pub struct StackSync;

/// Thread safe flavor whose computation is stored on the heap
pub struct HeapSync;

impl<T> GeneratorFlavor<T> for StackSync {
    type Cell = SyncRefCell<T>;

    closed spec fn cell_value(cell: &SyncRefCell<T>) -> T {
        cell.value()
    }

    closed spec fn cell_free(cell: &SyncRefCell<T>) -> bool {
        cell.wf() && !cell.is_locked()
    }

    fn new_cell(value: T) -> (r: SyncRefCell<T>) {
        SyncRefCell::new(value)
    }

    fn cell_replace(cell: &mut SyncRefCell<T>, other: T) -> (r: T) {
        cell.replace(other)
    }
}

impl<T> StackFlavor<T> for StackSync {

}

impl<T> GeneratorFlavor<T> for HeapSync {
    type Cell = SyncRefCell<T>;

    closed spec fn cell_value(cell: &SyncRefCell<T>) -> T {
        cell.value()
    }

    closed spec fn cell_free(cell: &SyncRefCell<T>) -> bool {
        cell.wf() && !cell.is_locked()
    }

    fn new_cell(value: T) -> (r: SyncRefCell<T>) {
        SyncRefCell::new(value)
    }

    fn cell_replace(cell: &mut SyncRefCell<T>, other: T) -> (r: T) {
        cell.replace(other)
    }
}

impl<T> HeapFlavor<T> for HeapSync {

}

pub type StackCellSlot<Y, R> = CellSlot<Y, R, StackSync>;

/// Thread safe controller of a generator stored inline
pub type StackCo<Y, R> = crate::Co<Y, R, StackSync>;

/// Thread safe generator, with its computation stored inline
pub type StackGn<Y, R, O, B> = crate::Gn<Y, R, O, StackSync, B>;

/// Thread safe generator controller
pub type Co<Y, R> = crate::Co<Y, R, HeapSync>;

/// Thread safe generator, with its computation stored on the heap
pub type Gn<Y, R, O, B> = crate::Gn<Y, R, O, HeapSync, Box<B>>;

impl<Y, R, O, B: Suspendable<Y, R, O>> StackGn<Y, R, O, B> {
    pub fn new(slot: StackCellSlot<Y, R>, generator: B) -> (r: Self)
        requires
            slot.free(),
            slot.slot() is Empty,
            generator.inv(),
            !generator.parked(),
            !generator.completed(),
        ensures
            r.wf(),
            !r.is_started(),
            !r.is_completed(),
            r.yielded() == Seq::<Y>::empty(),
            r.resumed() == Seq::<R>::empty(),
            r.computation() == generator,
    {
        crate::Gn::from_parts(crate::Co::new_stacked(slot), generator)
    }
}

impl<Y, R, O, B: Suspendable<Y, R, O>> Gn<Y, R, O, B> {
    pub fn new(generator: B) -> (r: Self)
        requires
            generator.inv(),
            !generator.parked(),
            !generator.completed(),
        ensures
            r.wf(),
            !r.is_started(),
            !r.is_completed(),
            r.yielded() == Seq::<Y>::empty(),
            r.resumed() == Seq::<R>::empty(),
            *r.computation() == generator,
    {
        let co = crate::Co::new_heap(CellSlot::<Y, R, HeapSync>::default());
        crate::Gn::from_parts(co, Box::new(generator))
    }
}

/// Over sequential borrow/release cycles on a [`SyncRefCell`], every borrow after the first
/// observes the value written by the cycle just before it
///
/// `cells` holds the cell before and after each cycle, `written` the value each cycle left and
/// `observed` the value each cycle's borrow saw.
pub proof fn lemma_cycles_observe_last_write<T>(
    cells: Seq<SyncRefCell<T>>,
    written: Seq<T>,
    observed: Seq<T>,
)
    requires
        cells.len() == written.len() + 1,
        observed.len() == written.len(),
        forall|i: int|
            0 <= i < written.len() ==> SyncRefCell::cycled(
                #[trigger] cells[i],
                cells[i + 1],
                written[i],
                observed[i],
            ),
    ensures
        written.len() > 0 ==> observed[0] == cells[0].value(),
        forall|i: int| 1 <= i < observed.len() ==> #[trigger] observed[i] == written[i - 1],
        written.len() > 0 ==> cells.last().value() == written.last(),
{
    assert forall|i: int| 1 <= i < observed.len() implies #[trigger] observed[i] == written[i
        - 1] by {
        assert(SyncRefCell::cycled(cells[i - 1], cells[i], written[i - 1], observed[i - 1]));
        assert(SyncRefCell::cycled(cells[i], cells[i + 1], written[i], observed[i]));
    }
    if written.len() > 0 {
        let n = written.len() - 1;
        assert(SyncRefCell::cycled(cells[n], cells[n + 1], written[n], observed[n]));
    }
}

} // verus!
