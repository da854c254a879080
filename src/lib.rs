//! Generators driven one step at a time.
//!
//! A suspendable computation is an explicit state machine implementing [`Suspendable`]. A
//! [`Gn`] owns it together with a controller ([`Co`]) and drives it one poll per `start` or
//! `resume` call. The computation suspends by depositing a value through an [`Interrupt`] into
//! the controller's exchange slot; the generator hands that value to the caller, and the next
//! `resume` value travels back the same way.
use vstd::prelude::*;

pub mod local;
pub mod sync;

verus! {

/// Contents of the exchange slot shared by a generator and its computation
pub enum Slot<Y, R> {
    Empty,
    YieldValue(Y),
    ResumeValue(R),
}

impl<Y, R> Slot<Y, R> {
    pub fn into_yield_value(self) -> (r: Option<Y>)
        ensures
            r == (if self is YieldValue {
                Some(self->YieldValue_0)
            } else {
                None
            }),
    {
        if let Slot::YieldValue(value) = self {
            Some(value)
        } else {
            None
        }
    }

    pub fn into_resume_value(self) -> (r: Option<R>)
        ensures
            r == (if self is ResumeValue {
                Some(self->ResumeValue_0)
            } else {
                None
            }),
    {
        if let Slot::ResumeValue(value) = self {
            Some(value)
        } else {
            None
        }
    }
}

/// A generator flavor
///
/// A flavor picks the single-slot container in which values of type `T` are exchanged. Each
/// flavor implements this trait for every `T`.
pub trait GeneratorFlavor<T> {
    type Cell;

    /// The value held by the container
    spec fn cell_value(cell: &Self::Cell) -> T;

    /// Whether the container can be accessed (it is not borrowed)
    spec fn cell_free(cell: &Self::Cell) -> bool;

    fn new_cell(value: T) -> (r: Self::Cell)
        ensures
            Self::cell_value(&r) == value,
            Self::cell_free(&r),
    ;

    fn cell_replace(cell: &mut Self::Cell, other: T) -> (r: T)
        requires
            Self::cell_free(old(cell)),
        ensures
            r == Self::cell_value(old(cell)),
            Self::cell_value(final(cell)) == other,
            Self::cell_free(final(cell)),
    ;
}

/// Flavors whose computation is stored inline, in the generator itself
pub trait StackFlavor<T>: GeneratorFlavor<T> {

}

/// Flavors whose computation is stored in its own heap allocation
pub trait HeapFlavor<T>: GeneratorFlavor<T> {

}

/// The exchange slot in the container chosen by the flavor `F`
pub struct CellSlot<Y, R, F: GeneratorFlavor<Slot<Y, R>>>(F::Cell);

impl<Y, R, F: GeneratorFlavor<Slot<Y, R>>> CellSlot<Y, R, F> {
    pub closed spec fn slot(&self) -> Slot<Y, R> {
        F::cell_value(&self.0)
    }

    pub closed spec fn free(&self) -> bool {
        F::cell_free(&self.0)
    }

    fn replace(&mut self, other: Slot<Y, R>) -> (r: Slot<Y, R>)
        requires
            old(self).free(),
        ensures
            r == old(self).slot(),
            final(self).slot() == other,
            final(self).free(),
    {
        F::cell_replace(&mut self.0, other)
    }
}

impl<Y, R, F: GeneratorFlavor<Slot<Y, R>>> Default for CellSlot<Y, R, F> {
    fn default() -> (r: Self)
        ensures
            r.slot() is Empty,
            r.free(),
    {
        CellSlot(F::new_cell(Slot::Empty))
    }
}

/// Used to suspend execution of a generator
///
/// "Co" stands for either _controller_ or _coroutine_. It owns the exchange slot and is lent to
/// the computation for the duration of each poll. Next to the slot it records, as ghost state,
/// every value deposited by an [`Interrupt`] and every resume value an [`Interrupt`] received.
pub struct Co<Y, R, F: GeneratorFlavor<Slot<Y, R>>> {
    slot: CellSlot<Y, R, F>,
    deposited: Ghost<Seq<Y>>,
    received: Ghost<Seq<R>>,
}

impl<Y, R, F: GeneratorFlavor<Slot<Y, R>>> Co<Y, R, F> {
    /// Current contents of the exchange slot
    pub closed spec fn slot(&self) -> Slot<Y, R> {
        self.slot.slot()
    }

    /// The slot can be accessed
    pub closed spec fn wf(&self) -> bool {
        self.slot.free()
    }

    /// Every value deposited by a suspension so far, in order
    pub closed spec fn deposited(&self) -> Seq<Y> {
        self.deposited@
    }

    /// Every resume value taken by a suspension so far, in order
    pub closed spec fn received(&self) -> Seq<R> {
        self.received@
    }

    fn from_slot(slot: CellSlot<Y, R, F>) -> (r: Self)
        requires
            slot.free(),
        ensures
            r.wf(),
            r.slot() == slot.slot(),
            r.deposited() == Seq::<Y>::empty(),
            r.received() == Seq::<R>::empty(),
    {
        Co { slot, deposited: Ghost(Seq::empty()), received: Ghost(Seq::empty()) }
    }

    /// Suspends the execution of the generator, yielding an intermediate value
    ///
    /// Nothing happens until the returned [`Interrupt`] is polled.
    pub fn suspend(&self, value: Y) -> (r: Interrupt<Y>)
        ensures
            r.pending() == Some(value),
    {
        Interrupt { yielded_value: Some(value) }
    }

    /// Executes another generator until completion, retrieving its return value
    ///
    /// The returned computation forwards every value the nested generator suspends with through
    /// this controller, passes every resume value on to it, and completes with its output. The
    /// yield and resume types must be the same as this controller's, but the
    /// [flavor](GeneratorFlavor) may differ.
    pub fn suspend_from<O2, F2: GeneratorFlavor<Slot<Y, R>>, B2: Suspendable<Y, R, O2>>(
        &self,
        generator: Gn<Y, R, O2, F2, B2>,
    ) -> (r: SuspendFrom<Y, R, O2, F2, B2>)
        requires
            generator.wf(),
            !generator.is_started(),
        ensures
            r.inv(),
            !r.parked(),
            !r.completed(),
            r.nested() == generator,
    {
        SuspendFrom { nested: generator, waiting: None }
    }
}

impl<Y, R, F: HeapFlavor<Slot<Y, R>>> Co<Y, R, F> {
    pub fn new_heap(slot: CellSlot<Y, R, F>) -> (r: Self)
        requires
            slot.free(),
        ensures
            r.wf(),
            r.slot() == slot.slot(),
            r.deposited() == Seq::<Y>::empty(),
            r.received() == Seq::<R>::empty(),
    {
        Self::from_slot(slot)
    }
}

impl<Y, R, F: StackFlavor<Slot<Y, R>>> Co<Y, R, F> {
    pub fn new_stacked(slot: CellSlot<Y, R, F>) -> (r: Self)
        requires
            slot.free(),
        ensures
            r.wf(),
            r.slot() == slot.slot(),
            r.deposited() == Seq::<Y>::empty(),
            r.received() == Seq::<R>::empty(),
    {
        Self::from_slot(slot)
    }
}

/// Outcome of one poll of a suspendable computation
pub enum Poll<T> {
    Ready(T),
    Pending,
}

/// The single suspension point created by [`Co::suspend`]
///
/// Its first poll deposits the yielded value into the slot and reports [`Poll::Pending`]; its
/// second poll takes the resume value out of the slot and reports it as ready.
pub struct Interrupt<Y> {
    yielded_value: Option<Y>,
}

impl<Y> Interrupt<Y> {
    /// The value still to be deposited, if the first poll has not happened yet
    pub closed spec fn pending(&self) -> Option<Y> {
        self.yielded_value
    }

    pub fn poll<R, F: GeneratorFlavor<Slot<Y, R>>>(&mut self, co: &mut Co<Y, R, F>) -> (r: Poll<
        R,
    >)
        requires
            old(co).wf(),
            old(self).pending() is Some ==> old(co).slot() is Empty,
            old(self).pending() is None ==> old(co).slot() is ResumeValue,
        ensures
            final(co).wf(),
            final(self).pending() is None,
            match old(self).pending() {
                Some(y) => {
                    &&& r is Pending
                    &&& final(co).slot() == Slot::<Y, R>::YieldValue(y)
                    &&& final(co).deposited() == old(co).deposited().push(y)
                    &&& final(co).received() == old(co).received()
                },
                None => {
                    &&& r == Poll::Ready(old(co).slot()->ResumeValue_0)
                    &&& final(co).slot() is Empty
                    &&& final(co).deposited() == old(co).deposited()
                    &&& final(co).received() == old(co).received().push(
                        old(co).slot()->ResumeValue_0,
                    )
                },
            },
    {
        if let Some(yielded_value) = self.yielded_value.take() {
            co.deposited = Ghost(co.deposited@.push(yielded_value));
            co.slot.replace(Slot::YieldValue(yielded_value));
            Poll::Pending
        } else {
            let resume_value = co.slot.replace(Slot::Empty).into_resume_value().expect(
                "resume value set by generator executor",
            );
            co.received = Ghost(co.received@.push(resume_value));
            Poll::Ready(resume_value)
        }
    }
}

/// A computation that can be driven one step at a time
///
/// This is the explicit state machine behind a generator. Each call of `poll` runs it up to its
/// next suspension point or to its end. The computation suspends only through an [`Interrupt`]
/// obtained from [`Co::suspend`]: a poll that reports [`Poll::Pending`] has deposited exactly
/// one value into the slot, and a poll of a parked computation first takes the resume value.
pub trait Suspendable<Y, R, O> {
    /// Internal well-formedness of the computation's state
    spec fn inv(&self) -> bool;

    /// Parked at a suspension point whose value was deposited, waiting for a resume value
    spec fn parked(&self) -> bool;

    /// The computation has returned its output and must not be polled again
    spec fn completed(&self) -> bool;

    /// One step of the computation: from `self`, given `resumed` (the resume value taken at
    /// the suspension point it was parked at, `None` on the first step), it goes to `next`
    /// and either suspends with a value or completes with its output, as `result` tells
    spec fn advances(&self, resumed: Option<R>, next: &Self, result: GnState<Y, O>) -> bool;

    /// Runs the computation up to its next suspension point or to its end, exchanging values
    /// through `co`
    fn poll<F: GeneratorFlavor<Slot<Y, R>>>(&mut self, co: &mut Co<Y, R, F>) -> (r: Poll<O>)
        requires
            old(self).inv(),
            !old(self).completed(),
            old(co).wf(),
            if old(self).parked() {
                old(co).slot() is ResumeValue
            } else {
                old(co).slot() is Empty
            },
        ensures
            final(self).inv(),
            final(co).wf(),
            if old(self).parked() {
                final(co).received() == old(co).received().push(old(co).slot()->ResumeValue_0)
            } else {
                final(co).received() == old(co).received()
            },
            match r {
                Poll::Pending => {
                    &&& final(self).parked()
                    &&& !final(self).completed()
                    &&& final(co).slot() is YieldValue
                    &&& final(co).deposited() == old(co).deposited().push(
                        final(co).slot()->YieldValue_0,
                    )
                },
                Poll::Ready(_) => {
                    &&& final(self).completed()
                    &&& final(co).slot() is Empty
                    &&& final(co).deposited() == old(co).deposited()
                },
            },
            old(self).advances(
                if old(self).parked() {
                    Some(old(co).slot()->ResumeValue_0)
                } else {
                    None
                },
                &*final(self),
                match r {
                    Poll::Pending => GnState::Suspended(final(co).slot()->YieldValue_0),
                    Poll::Ready(o) => GnState::Completed(o),
                },
            ),
    ;
}

impl<Y, R, O, B: Suspendable<Y, R, O>> Suspendable<Y, R, O> for Box<B> {
    open spec fn inv(&self) -> bool {
        (**self).inv()
    }

    open spec fn parked(&self) -> bool {
        (**self).parked()
    }

    open spec fn completed(&self) -> bool {
        (**self).completed()
    }

    open spec fn advances(&self, resumed: Option<R>, next: &Self, result: GnState<Y, O>) -> bool {
        (**self).advances(resumed, &**next, result)
    }

    fn poll<F: GeneratorFlavor<Slot<Y, R>>>(&mut self, co: &mut Co<Y, R, F>) -> (r: Poll<O>) {
        (**self).poll(co)
    }
}

/// The result of a generator execution
#[derive(Debug)]
pub enum GnState<Y, O> {
    Suspended(Y),
    Completed(O),
}

/// Panics with `message` unless `condition` holds; verified callers establish `condition`
pub(crate) fn usage_check(condition: bool, message: &str)
    requires
        condition,
{
    if !condition {
        let violation: Option<()> = None;
        violation.expect(message);
    }
}

/// A generator
///
/// Generators control the flow of three types of data:
///
/// - Yield type: Each time a generator suspends execution, a value is handed to the caller.
/// - Resume type: Each time a generator is resumed, a value is passed in by the caller.
/// - Output type: When a generator completes, one final value is returned.
///
/// The generator owns its computation `B` and the controller that holds the exchange slot.
pub struct Gn<Y, R, O, F: GeneratorFlavor<Slot<Y, R>>, B> {
    co: Co<Y, R, F>,
    generator: B,
    started: bool,
    completed: bool,
    output: Ghost<Option<O>>,
}

impl<Y, R, O, F: GeneratorFlavor<Slot<Y, R>>, B: Suspendable<Y, R, O>> Gn<Y, R, O, F, B> {
    /// Between two steps the slot is empty, and the computation is fresh before the first
    /// step, parked while suspended, and completed once the output was returned
    pub closed spec fn wf(&self) -> bool {
        &&& self.co.wf()
        &&& self.co.slot() is Empty
        &&& self.generator.inv()
        &&& self.completed == self.generator.completed()
        &&& self.completed ==> self.started
        &&& self.output@ is Some <==> self.completed
        &&& !self.started ==> !self.generator.parked()
        &&& self.started && !self.completed ==> self.generator.parked()
    }

    pub closed spec fn is_started(&self) -> bool {
        self.started
    }

    pub closed spec fn is_completed(&self) -> bool {
        self.completed
    }

    /// Every value the computation suspended with so far, in order
    pub closed spec fn yielded(&self) -> Seq<Y> {
        self.co.deposited()
    }

    /// Every resume value delivered to a suspension point of the computation so far, in order
    pub closed spec fn resumed(&self) -> Seq<R> {
        self.co.received()
    }

    /// The output returned at completion
    pub closed spec fn output(&self) -> Option<O> {
        self.output@
    }

    /// The computation the generator drives, in its current state
    pub closed spec fn computation(&self) -> B {
        self.generator
    }

    /// What a drive step from `before` to `after` reports: the one value the computation
    /// suspended with, or its completion with its output
    pub open spec fn reports(before: Self, after: Self, r: GnState<Y, O>) -> bool {
        match r {
            GnState::Suspended(y) => {
                &&& !after.is_completed()
                &&& after.yielded() == before.yielded().push(y)
            },
            GnState::Completed(o) => {
                &&& after.is_completed()
                &&& after.output() == Some(o)
                &&& after.yielded() == before.yielded()
            },
        }
    }

    /// One call of `start` (`resumed` is `None`) or `resume` (`resumed` holds its value) took
    /// the generator from `before` to `after` and returned `r`: the resume value was delivered
    /// to the computation's suspension point, the computation took one step on it, and `r`
    /// reports that step
    pub open spec fn drives(before: Self, after: Self, resumed: Option<R>, r: GnState<Y, O>) -> bool {
        &&& after.wf()
        &&& after.is_started()
        &&& after.resumed() == match resumed {
            Some(v) => before.resumed().push(v),
            None => before.resumed(),
        }
        &&& Self::reports(before, after, r)
        &&& before.computation().advances(resumed, &after.computation(), r)
    }

    pub fn from_parts(co: Co<Y, R, F>, generator: B) -> (r: Self)
        requires
            co.wf(),
            co.slot() is Empty,
            generator.inv(),
            !generator.parked(),
            !generator.completed(),
        ensures
            r.wf(),
            !r.is_started(),
            !r.is_completed(),
            r.yielded() == co.deposited(),
            r.resumed() == co.received(),
            r.computation() == generator,
    {
        Gn { co, generator, started: false, completed: false, output: Ghost(None) }
    }

    /// Returns whether the generator was started or not
    pub fn started(&self) -> (r: bool)
        ensures
            r == self.is_started(),
    {
        self.started
    }

    /// Starts execution of the generator
    ///
    /// This method must be called exactly once, before any call of [`resume`](Self::resume);
    /// calling it a second time is a usage error and panics.
    pub fn start(&mut self) -> (r: GnState<Y, O>)
        requires
            old(self).wf(),
            !old(self).is_started(),
        ensures
            Self::drives(*old(self), *final(self), None, r),
    {
        usage_check(!self.started, "generator must be started only once");
        self.started = true;
        self.step()
    }

    /// Resumes execution of the generator, passing in a value
    ///
    /// [`start`](Self::start) must be called before resumption can happen, and a completed
    /// generator must not be resumed. The value is what the pending suspension of the
    /// computation resolves to.
    pub fn resume(&mut self, value: R) -> (r: GnState<Y, O>)
        requires
            old(self).wf(),
            old(self).is_started(),
            !old(self).is_completed(),
        ensures
            Self::drives(*old(self), *final(self), Some(value), r),
    {
        usage_check(self.started, "generator must be started before it can be resumed");
        usage_check(!self.completed, "generator must not be resumed after completion");
        self.co.slot.replace(Slot::ResumeValue(value));
        self.step()
    }

    /// One drive step: polls the computation once and reports what it did
    fn step(&mut self) -> (r: GnState<Y, O>)
        requires
            old(self).co.wf(),
            old(self).generator.inv(),
            !old(self).completed,
            old(self).output@ is None,
            !old(self).generator.completed(),
            old(self).started,
            if old(self).generator.parked() {
                old(self).co.slot() is ResumeValue
            } else {
                old(self).co.slot() is Empty
            },
        ensures
            final(self).wf(),
            final(self).started,
            if old(self).generator.parked() {
                final(self).resumed() == old(self).resumed().push(
                    old(self).co.slot()->ResumeValue_0,
                )
            } else {
                final(self).resumed() == old(self).resumed()
            },
            Self::reports(*old(self), *final(self), r),
            old(self).generator.advances(
                if old(self).generator.parked() {
                    Some(old(self).co.slot()->ResumeValue_0)
                } else {
                    None
                },
                &final(self).generator,
                r,
            ),
    {
        match self.generator.poll(&mut self.co) {
            Poll::Pending => {
                let value = self.co.slot.replace(Slot::Empty).into_yield_value().expect(
                    "yielded value set by the polled interrupt",
                );
                GnState::Suspended(value)
            },
            Poll::Ready(value) => {
                self.completed = true;
                self.output = Ghost(Some(value));
                GnState::Completed(value)
            },
        }
    }
}

impl<Y, F: GeneratorFlavor<Slot<Y, ()>>, B: Suspendable<Y, (), ()>> Gn<Y, (), (), F, B> {
    /// Iteration over the values of a generator whose resume and output types are `()`
    ///
    /// Starts the generator on the first call and resumes it on later ones; a suspension is
    /// an item and the completion ends the sequence. Once ended, the sequence stays ended and
    /// the generator is not driven again.
    pub fn next(&mut self) -> (r: Option<Y>)
        requires
            old(self).wf(),
        ensures
            final(self).wf(),
            old(self).is_completed() ==> r is None && *final(self) == *old(self),
            !old(self).is_completed() ==> {
                &&& final(self).is_started()
                &&& match r {
                    Some(y) => {
                        &&& !final(self).is_completed()
                        &&& final(self).yielded() == old(self).yielded().push(y)
                    },
                    None => {
                        &&& final(self).is_completed()
                        &&& final(self).yielded() == old(self).yielded()
                    },
                }
                &&& old(self).computation().advances(
                    if old(self).is_started() {
                        Some(())
                    } else {
                        None
                    },
                    &final(self).computation(),
                    match r {
                        Some(y) => GnState::Suspended(y),
                        None => GnState::Completed(()),
                    },
                )
            },
    {
        if self.completed {
            return None;
        }
        let state = if self.started {
            self.resume(())
        } else {
            self.start()
        };
        match state {
            GnState::Suspended(value) => Some(value),
            GnState::Completed(()) => None,
        }
    }
}

/// The computation returned by [`Co::suspend_from`]
pub struct SuspendFrom<Y, R, O, F: GeneratorFlavor<Slot<Y, R>>, B> {
    nested: Gn<Y, R, O, F, B>,
    waiting: Option<Interrupt<Y>>,
}

impl<Y, R, O, F: GeneratorFlavor<Slot<Y, R>>, B: Suspendable<Y, R, O>> SuspendFrom<Y, R, O, F, B> {
    /// The generator delegated to
    pub closed spec fn nested(&self) -> Gn<Y, R, O, F, B> {
        self.nested
    }

    /// A forwarded value was deposited and its resume value is awaited
    pub closed spec fn is_waiting(&self) -> bool {
        self.waiting is Some
    }

    pub closed spec fn state_ok(&self) -> bool {
        &&& self.nested.wf()
        &&& match self.waiting {
            Some(interrupt) => {
                &&& interrupt.pending() is None
                &&& self.nested.is_started()
                &&& !self.nested.is_completed()
            },
            None => !self.nested.is_started() || self.nested.is_completed(),
        }
    }

    /// What one step of the delegation reports: the nested generator's next suspension,
    /// deposited through the outer controller, or its completion with its output
    pub open spec fn forwards<F1: GeneratorFlavor<Slot<Y, R>>>(
        before: Self,
        after: Self,
        co_before: Co<Y, R, F1>,
        co_after: Co<Y, R, F1>,
        r: Poll<O>,
    ) -> bool {
        match r {
            Poll::Pending => {
                &&& !after.nested().is_completed()
                &&& co_after.slot() is YieldValue
                &&& co_after.deposited() == co_before.deposited().push(
                    co_after.slot()->YieldValue_0,
                )
                &&& after.nested().yielded() == before.nested().yielded().push(
                    co_after.slot()->YieldValue_0,
                )
            },
            Poll::Ready(o) => {
                &&& after.nested().is_completed()
                &&& after.nested().output() == Some(o)
                &&& co_after.deposited() == co_before.deposited()
                &&& after.nested().yielded() == before.nested().yielded()
            },
        }
    }

    /// Drives the nested generator one step, forwarding what it yields through `co`
    pub fn step<F1: GeneratorFlavor<Slot<Y, R>>>(&mut self, co: &mut Co<Y, R, F1>) -> (r: Poll<O>)
        requires
            old(self).state_ok(),
            !old(self).nested().is_completed(),
            old(co).wf(),
            if old(self).is_waiting() {
                old(co).slot() is ResumeValue
            } else {
                old(co).slot() is Empty
            },
        ensures
            final(self).state_ok(),
            final(co).wf(),
            final(self).nested().is_started(),
            if old(self).is_waiting() {
                &&& final(co).received() == old(co).received().push(old(co).slot()->ResumeValue_0)
                &&& final(self).nested().resumed() == old(self).nested().resumed().push(
                    old(co).slot()->ResumeValue_0,
                )
            } else {
                &&& final(co).received() == old(co).received()
                &&& final(self).nested().resumed() == old(self).nested().resumed()
            },
            final(self).is_waiting() == (r is Pending),
            r is Ready ==> final(co).slot() is Empty,
            Self::forwards(*old(self), *final(self), *old(co), *final(co), r),
            old(self).nested().computation().advances(
                if old(self).is_waiting() {
                    Some(old(co).slot()->ResumeValue_0)
                } else {
                    None
                },
                &final(self).nested().computation(),
                match r {
                    Poll::Pending => GnState::Suspended(final(co).slot()->YieldValue_0),
                    Poll::Ready(o) => GnState::Completed(o),
                },
            ),
    {
        let state = match self.waiting.take() {
            None => self.nested.start(),
            Some(interrupt) => {
                let mut interrupt = interrupt;
                match interrupt.poll(co) {
                    Poll::Ready(value) => self.nested.resume(value),
                    Poll::Pending => vstd::pervasive::unreached(),
                }
            },
        };
        match state {
            GnState::Suspended(value) => {
                let mut interrupt = co.suspend(value);
                interrupt.poll(co);
                self.waiting = Some(interrupt);
                Poll::Pending
            },
            GnState::Completed(output) => Poll::Ready(output),
        }
    }
}

impl<Y, R, O, G: GeneratorFlavor<Slot<Y, R>>, B: Suspendable<Y, R, O>> Suspendable<
    Y,
    R,
    O,
> for SuspendFrom<Y, R, O, G, B> {
    open spec fn inv(&self) -> bool {
        self.state_ok()
    }

    open spec fn parked(&self) -> bool {
        self.is_waiting()
    }

    open spec fn completed(&self) -> bool {
        self.nested().is_completed()
    }

    /// A step of the delegation is the nested computation's step, passed on unchanged
    open spec fn advances(&self, resumed: Option<R>, next: &Self, result: GnState<Y, O>) -> bool {
        self.nested().computation().advances(resumed, &next.nested().computation(), result)
    }

    fn poll<F: GeneratorFlavor<Slot<Y, R>>>(&mut self, co: &mut Co<Y, R, F>) -> (r: Poll<O>) {
        self.step(co)
    }
}

/// A computation that suspends exactly `n` times before completing is reported by `n + 1`
/// drive steps (`start`, then `resume` calls): the first `n` report its suspensions as
/// `Suspended`, in the order of the suspensions, and the last one reports `Completed`.
///
/// `states` holds the generator before and after each step and `results` what each step
/// returned; `n` is the number of values the computation suspended with during the run.
pub proof fn lemma_suspensions_then_completion<
    Y,
    R,
    O,
    F: GeneratorFlavor<Slot<Y, R>>,
    B: Suspendable<Y, R, O>,
>(states: Seq<Gn<Y, R, O, F, B>>, results: Seq<GnState<Y, O>>)
    requires
        states.len() == results.len() + 1,
        !states[0].is_completed(),
        forall|i: int|
            0 <= i < results.len() ==> !(#[trigger] states[i]).is_completed()
                && Gn::reports(states[i], states[i + 1], results[i]),
        states.last().is_completed(),
    ensures
        ({
            let n = states.last().yielded().len() - states[0].yielded().len();
            &&& results.len() == n + 1
            &&& states.last().yielded().subrange(0, states[0].yielded().len() as int)
                == states[0].yielded()
            &&& forall|i: int|
                0 <= i < n ==> results[i] == GnState::<Y, O>::Suspended(
                    states.last().yielded()[states[0].yielded().len() + i],
                )
            &&& results[n] is Completed
        }),
    decreases results.len(),
{
    let base = states[0].yielded();
    if results.len() == 0 {
        assert(states.last() == states[0]);
    } else if results[0] is Completed {
        if results.len() > 1 {
            assert(!states[1].is_completed());
        }
        assert(states[1].is_completed());
    } else {
        let rest = states.subrange(1, states.len() as int);
        let rest_results = results.subrange(1, results.len() as int);
        assert forall|i: int| 0 <= i < rest_results.len() implies !(#[trigger] rest[i]).is_completed()
            && Gn::reports(rest[i], rest[i + 1], rest_results[i]) by {
            assert(rest[i] == states[i + 1]);
            assert(rest[i + 1] == states[i + 2]);
            assert(rest_results[i] == results[i + 1]);
            assert(!states[i + 1].is_completed());
        }
        assert(rest.last() == states.last());
        assert(rest[0] == states[1]);
        lemma_suspensions_then_completion(rest, rest_results);
        let y = results[0]->Suspended_0;
        assert(!states[0].is_completed());
        assert(states[1].yielded() == base.push(y));
        let last = states.last().yielded();
        assert(last.subrange(0, states[1].yielded().len() as int) == states[1].yielded());
        assert(last.subrange(0, base.len() as int) =~= base) by {
            assert forall|j: int| 0 <= j < base.len() implies last[j] == base[j] by {
                assert(last.subrange(0, states[1].yielded().len() as int)[j] == last[j]);
                assert(states[1].yielded()[j] == base[j]);
            }
        }
        assert(last[base.len() as int] == y) by {
            assert(last.subrange(0, states[1].yielded().len() as int)[base.len() as int]
                == last[base.len() as int]);
        }
        let n = last.len() - base.len();
        assert forall|i: int| 0 <= i < n implies results[i] == GnState::<Y, O>::Suspended(
            last[base.len() + i],
        ) by {
            if i > 0 {
                assert(results[i] == rest_results[i - 1]);
                assert(states[1].yielded().len() + (i - 1) == base.len() + i);
            }
        }
        assert(results[n] == rest_results[n - 1]);
    }
}

/// Delegating to a nested generator that suspends `k` times takes `k + 1` steps: the outer
/// controller receives exactly the `k` values of the nested generator, in order, and the
/// delegation completes with exactly the nested generator's output.
///
/// `states` holds the delegating computation before and after each step, `cos` the outer
/// controller at the same points, and `results` what each step returned.
pub proof fn lemma_delegation_splices<
    Y,
    R,
    O,
    F: GeneratorFlavor<Slot<Y, R>>,
    B: Suspendable<Y, R, O>,
    F1: GeneratorFlavor<Slot<Y, R>>,
>(states: Seq<SuspendFrom<Y, R, O, F, B>>, cos: Seq<Co<Y, R, F1>>, results: Seq<Poll<O>>)
    requires
        states.len() == results.len() + 1,
        cos.len() == states.len(),
        !states[0].nested().is_completed(),
        forall|i: int|
            0 <= i < results.len() ==> !(#[trigger] states[i]).nested().is_completed()
                && SuspendFrom::forwards(states[i], states[i + 1], cos[i], cos[i + 1], results[i]),
        states.last().nested().is_completed(),
    ensures
        ({
            let before = states[0].nested().yielded();
            let after = states.last().nested().yielded();
            let k = after.len() - before.len();
            &&& results.len() == k + 1
            &&& after.subrange(0, before.len() as int) == before
            &&& cos.last().deposited() == cos[0].deposited() + after.subrange(
                before.len() as int,
                after.len() as int,
            )
            &&& results[k] is Ready
            &&& states.last().nested().output() == Some(results[k]->Ready_0)
        }),
    decreases results.len(),
{
    let before = states[0].nested().yielded();
    let after = states.last().nested().yielded();
    if results.len() == 0 {
        assert(states.last() == states[0]);
    } else if results[0] is Ready {
        if results.len() > 1 {
            assert(!states[1].nested().is_completed());
        }
        assert(states[1].nested().is_completed());
        assert(after.subrange(0, before.len() as int) =~= before);
        assert(cos.last().deposited() =~= cos[0].deposited() + after.subrange(
            before.len() as int,
            after.len() as int,
        ));
    } else {
        let rest = states.subrange(1, states.len() as int);
        let rest_cos = cos.subrange(1, cos.len() as int);
        let rest_results = results.subrange(1, results.len() as int);
        assert forall|i: int| 0 <= i < rest_results.len() implies !(#[trigger] rest[i]).nested().is_completed()
            && SuspendFrom::forwards(rest[i], rest[i + 1], rest_cos[i], rest_cos[i + 1], rest_results[i]) by {
            assert(rest[i] == states[i + 1]);
            assert(rest[i + 1] == states[i + 2]);
            assert(rest_cos[i] == cos[i + 1]);
            assert(rest_cos[i + 1] == cos[i + 2]);
            assert(rest_results[i] == results[i + 1]);
            assert(!states[i + 1].nested().is_completed());
        }
        assert(rest.last() == states.last());
        assert(rest_cos.last() == cos.last());
        assert(rest[0] == states[1]);
        assert(rest_cos[0] == cos[1]);
        lemma_delegation_splices(rest, rest_cos, rest_results);
        let y = cos[1].slot()->YieldValue_0;
        let middle = states[1].nested().yielded();
        assert(middle == before.push(y));
        assert(after.subrange(0, middle.len() as int) == middle);
        assert(after.subrange(0, before.len() as int) =~= before) by {
            assert forall|j: int| 0 <= j < before.len() implies after[j] == before[j] by {
                assert(after.subrange(0, middle.len() as int)[j] == after[j]);
                assert(middle[j] == before[j]);
            }
        }
        assert(after[before.len() as int] == y) by {
            assert(after.subrange(0, middle.len() as int)[before.len() as int]
                == after[before.len() as int]);
        }
        assert(after.subrange(before.len() as int, after.len() as int) =~= seq![y]
            + after.subrange(middle.len() as int, after.len() as int));
        assert(cos[1].deposited() == cos[0].deposited().push(y));
        assert(cos.last().deposited() =~= cos[0].deposited() + after.subrange(
            before.len() as int,
            after.len() as int,
        ));
        let k = after.len() - before.len();
        assert(results[k] == rest_results[k - 1]);
    }
}

/// Over a run of a generator, `start` followed by `resume` calls: `started` is false before
/// the run and true after every call of it, and the resume values reach the computation's
/// suspension points unchanged and in order, each as the value its suspension resolves to.
///
/// `states` holds the generator before and after each call, `inputs` what each call passed
/// (`None` for `start`, the resume value for `resume`), and `results` what each call returned.
pub proof fn lemma_started_and_resumed<
    Y,
    R,
    O,
    F: GeneratorFlavor<Slot<Y, R>>,
    B: Suspendable<Y, R, O>,
>(states: Seq<Gn<Y, R, O, F, B>>, inputs: Seq<Option<R>>, results: Seq<GnState<Y, O>>)
    requires
        states.len() == inputs.len() + 1,
        results.len() == inputs.len(),
        !states[0].is_started(),
        inputs.len() > 0 ==> inputs[0] is None,
        forall|i: int| 1 <= i < inputs.len() ==> (#[trigger] inputs[i]) is Some,
        forall|i: int|
            0 <= i < inputs.len() ==> Gn::drives(
                #[trigger] states[i],
                states[i + 1],
                inputs[i],
                results[i],
            ),
    ensures
        forall|i: int| 1 <= i < states.len() ==> (#[trigger] states[i]).is_started(),
        inputs.len() > 0 ==> states.last().resumed() == states[0].resumed() + inputs.subrange(
            1,
            inputs.len() as int,
        ).map_values(|input: Option<R>| input->Some_0),
    decreases inputs.len(),
{
    let n = inputs.len() as int;
    if n > 0 {
        let prefix = states.drop_last();
        let prefix_inputs = inputs.drop_last();
        let prefix_results = results.drop_last();
        assert forall|i: int| 0 <= i < prefix_inputs.len() implies Gn::drives(
            #[trigger] prefix[i],
            prefix[i + 1],
            prefix_inputs[i],
            prefix_results[i],
        ) by {
            assert(prefix[i] == states[i]);
            assert(prefix[i + 1] == states[i + 1]);
        }
        assert forall|i: int| 1 <= i < prefix_inputs.len() implies (
        #[trigger] prefix_inputs[i]) is Some by {
            assert(prefix_inputs[i] == inputs[i]);
        }
        assert(prefix[0] == states[0]);
        lemma_started_and_resumed(prefix, prefix_inputs, prefix_results);
        assert(Gn::drives(states[n - 1], states[n], inputs[n - 1], results[n - 1]));
        assert forall|i: int| 1 <= i < states.len() implies (#[trigger] states[i]).is_started() by {
            if i < n {
                assert(prefix[i] == states[i]);
            }
        }
        let values = inputs.subrange(1, n).map_values(|input: Option<R>| input->Some_0);
        if n == 1 {
            assert(values =~= Seq::<R>::empty());
            assert(states[0].resumed() + values =~= states[0].resumed());
        } else {
            let prefix_values = prefix_inputs.subrange(1, n - 1).map_values(
                |input: Option<R>| input->Some_0,
            );
            assert(prefix.last() == states[n - 1]);
            assert(values =~= prefix_values.push(inputs[n - 1]->Some_0));
            assert(states[0].resumed() + values =~= (states[0].resumed() + prefix_values).push(
                inputs[n - 1]->Some_0,
            ));
        }
    }
}

} // verus!
