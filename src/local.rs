//! Flavors for generators that stay on one thread
use vstd::prelude::*;

use crate::{CellSlot, GeneratorFlavor, HeapFlavor, StackFlavor, Suspendable};

verus! {

/// Plain single-slot container, bound to the thread that created it
pub struct LocalCell<T> {
    value: T,
    not_thread_safe: core::marker::PhantomData<std::rc::Rc<()>>,
}

/// Thread local flavor whose computation is stored inline
pub struct StackLocal;

/// Thread local flavor whose computation is stored on the heap
pub struct HeapLocal;

impl<T> GeneratorFlavor<T> for StackLocal {
    type Cell = LocalCell<T>;

    closed spec fn cell_value(cell: &LocalCell<T>) -> T {
        cell.value
    }

    closed spec fn cell_free(cell: &LocalCell<T>) -> bool {
        true
    }

    fn new_cell(value: T) -> (r: LocalCell<T>) {
        LocalCell { value, not_thread_safe: core::marker::PhantomData }
    }

    fn cell_replace(cell: &mut LocalCell<T>, other: T) -> (r: T) {
        let mut other = other;
        core::mem::swap(&mut cell.value, &mut other);
        other
    }
}

impl<T> StackFlavor<T> for StackLocal {

}

impl<T> GeneratorFlavor<T> for HeapLocal {
    type Cell = LocalCell<T>;

    closed spec fn cell_value(cell: &LocalCell<T>) -> T {
        cell.value
    }

    closed spec fn cell_free(cell: &LocalCell<T>) -> bool {
        true
    }

    fn new_cell(value: T) -> (r: LocalCell<T>) {
        LocalCell { value, not_thread_safe: core::marker::PhantomData }
    }

    fn cell_replace(cell: &mut LocalCell<T>, other: T) -> (r: T) {
        let mut other = other;
        core::mem::swap(&mut cell.value, &mut other);
        other
    }
}

impl<T> HeapFlavor<T> for HeapLocal {

}

pub type StackCellSlot<Y, R> = CellSlot<Y, R, StackLocal>;

/// Thread local controller of a generator stored inline
pub type StackCo<Y, R> = crate::Co<Y, R, StackLocal>;

/// Thread local generator, with its computation stored inline
pub type StackGn<Y, R, O, B> = crate::Gn<Y, R, O, StackLocal, B>;

/// Thread local generator controller
pub type Co<Y, R> = crate::Co<Y, R, HeapLocal>;

/// Thread local generator, with its computation stored on the heap
pub type Gn<Y, R, O, B> = crate::Gn<Y, R, O, HeapLocal, Box<B>>;

impl<Y, R, O, B: Suspendable<Y, R, O>> StackGn<Y, R, O, B> {
    pub fn new(slot: StackCellSlot<Y, R>, generator: B) -> (r: Self)
        requires
            slot.free(),
            slot.slot() is Empty,
            generator.inv(),
            !generator.parked(),
            !generator.completed(),
        ensures
            r.wf(),
            !r.is_started(),
            !r.is_completed(),
            r.yielded() == Seq::<Y>::empty(),
            r.resumed() == Seq::<R>::empty(),
            r.computation() == generator,
    {
        crate::Gn::from_parts(crate::Co::new_stacked(slot), generator)
    }
}

impl<Y, R, O, B: Suspendable<Y, R, O>> Gn<Y, R, O, B> {
    pub fn new(generator: B) -> (r: Self)
        requires
            generator.inv(),
            !generator.parked(),
            !generator.completed(),
        ensures
            r.wf(),
            !r.is_started(),
            !r.is_completed(),
            r.yielded() == Seq::<Y>::empty(),
            r.resumed() == Seq::<R>::empty(),
            *r.computation() == generator,
    {
        let co = crate::Co::new_heap(CellSlot::<Y, R, HeapLocal>::default());
        crate::Gn::from_parts(co, Box::new(generator))
    }
}

} // verus!
