use std::rc::Rc;

use genoise::local::{HeapLocal, StackLocal};
use genoise::sync::{HeapSync, StackSync};
use genoise::{
    local, sync, CellSlot, Co, GeneratorFlavor, Gn, GnState, Interrupt, Poll, Slot, SuspendFrom,
    Suspendable,
};

/// Suspends with each of `values` in turn, ignoring the resume values, then completes with
/// `output`
struct Script<Y, O> {
    values: Vec<Y>,
    next: usize,
    output: O,
    waiting: Option<Interrupt<Y>>,
    done: bool,
}

fn script<Y, O>(values: Vec<Y>, output: O) -> Script<Y, O> {
    Script {
        values,
        next: 0,
        output,
        waiting: None,
        done: false,
    }
}

impl<Y: Clone + PartialEq, R, O: Clone + PartialEq> Suspendable<Y, R, O> for Script<Y, O> {
    fn inv(&self) -> bool {
        true
    }

    fn parked(&self) -> bool {
        self.waiting.is_some()
    }

    fn completed(&self) -> bool {
        self.done
    }

    fn advances(&self, _: Option<R>, next: &Self, result: GnState<Y, O>) -> bool {
        match result {
            GnState::Suspended(yielded) => {
                self.next < self.values.len()
                    && yielded == self.values[self.next]
                    && next.next == self.next + 1
            }
            GnState::Completed(output) => {
                self.next == self.values.len() && output == self.output && next.done
            }
        }
    }

    fn poll<F: GeneratorFlavor<Slot<Y, R>>>(&mut self, co: &mut Co<Y, R, F>) -> Poll<O> {
        if let Some(mut interrupt) = self.waiting.take() {
            assert!(matches!(interrupt.poll(co), Poll::Ready(_)));
        }
        if self.next < self.values.len() {
            let mut interrupt = co.suspend(self.values[self.next].clone());
            self.next += 1;
            assert!(matches!(interrupt.poll(co), Poll::Pending));
            self.waiting = Some(interrupt);
            Poll::Pending
        } else {
            self.done = true;
            Poll::Ready(self.output.clone())
        }
    }
}

/// Suspends `count` times with the numbers 0, 1, ... and completes with every resume value
/// it received, in order
struct Recorder {
    count: u32,
    received: Vec<u64>,
    waiting: Option<Interrupt<u32>>,
    done: bool,
}

fn recorder(count: u32) -> Recorder {
    Recorder {
        count,
        received: Vec::new(),
        waiting: None,
        done: false,
    }
}

impl Suspendable<u32, u64, Vec<u64>> for Recorder {
    fn inv(&self) -> bool {
        true
    }

    fn parked(&self) -> bool {
        self.waiting.is_some()
    }

    fn completed(&self) -> bool {
        self.done
    }

    fn advances(&self, resumed: Option<u64>, next: &Self, result: GnState<u32, Vec<u64>>) -> bool {
        let mut received = self.received.clone();
        received.extend(resumed);
        match result {
            GnState::Suspended(yielded) => {
                yielded as usize == received.len() && yielded < self.count && next.received == received
            }
            GnState::Completed(output) => received.len() as u32 == self.count && output == received,
        }
    }

    fn poll<F: GeneratorFlavor<Slot<u32, u64>>>(
        &mut self,
        co: &mut Co<u32, u64, F>,
    ) -> Poll<Vec<u64>> {
        if let Some(mut interrupt) = self.waiting.take() {
            match interrupt.poll(co) {
                Poll::Ready(value) => self.received.push(value),
                Poll::Pending => unreachable!(),
            }
        }
        let index = self.received.len() as u32;
        if index < self.count {
            let mut interrupt = co.suspend(index);
            assert!(matches!(interrupt.poll(co), Poll::Pending));
            self.waiting = Some(interrupt);
            Poll::Pending
        } else {
            self.done = true;
            Poll::Ready(self.received.clone())
        }
    }
}

/// Keeps `guard` alive across each of its `count` suspensions
struct Holding {
    guard: Rc<()>,
    count: u32,
    waiting: Option<Interrupt<Rc<()>>>,
    done: bool,
}

impl Suspendable<Rc<()>, (), ()> for Holding {
    fn inv(&self) -> bool {
        true
    }

    fn parked(&self) -> bool {
        self.waiting.is_some()
    }

    fn completed(&self) -> bool {
        self.done
    }

    fn advances(&self, _: Option<()>, next: &Self, result: GnState<Rc<()>, ()>) -> bool {
        match result {
            GnState::Suspended(yielded) => {
                self.count > 0 && Rc::ptr_eq(&yielded, &self.guard) && next.count + 1 == self.count
            }
            GnState::Completed(()) => self.count == 0 && next.done,
        }
    }

    fn poll<F: GeneratorFlavor<Slot<Rc<()>, ()>>>(&mut self, co: &mut Co<Rc<()>, (), F>) -> Poll<()> {
        if let Some(mut interrupt) = self.waiting.take() {
            assert!(matches!(interrupt.poll(co), Poll::Ready(())));
        }
        if self.count > 0 {
            self.count -= 1;
            let mut interrupt = co.suspend(Rc::clone(&self.guard));
            assert!(matches!(interrupt.poll(co), Poll::Pending));
            self.waiting = Some(interrupt);
            Poll::Pending
        } else {
            self.done = true;
            Poll::Ready(())
        }
    }
}

/// Delegates to a nested thread safe generator and completes with ten times its output
struct Delegating<B> {
    nested: Option<sync::Gn<u32, u64, u32, B>>,
    running: Option<SuspendFrom<u32, u64, u32, HeapSync, Box<B>>>,
    waiting: bool,
    done: bool,
}

fn delegating<B: Suspendable<u32, u64, u32>>(nested: sync::Gn<u32, u64, u32, B>) -> Delegating<B> {
    Delegating {
        nested: Some(nested),
        running: None,
        waiting: false,
        done: false,
    }
}

impl<B: Suspendable<u32, u64, u32>> Suspendable<u32, u64, u32> for Delegating<B> {
    fn inv(&self) -> bool {
        true
    }

    fn parked(&self) -> bool {
        self.waiting
    }

    fn completed(&self) -> bool {
        self.done
    }

    fn advances(&self, _: Option<u64>, next: &Self, result: GnState<u32, u32>) -> bool {
        match result {
            GnState::Suspended(_) => next.waiting,
            GnState::Completed(output) => output % 10 == 0 && next.done,
        }
    }

    fn poll<F: GeneratorFlavor<Slot<u32, u64>>>(&mut self, co: &mut Co<u32, u64, F>) -> Poll<u32> {
        if let Some(nested) = self.nested.take() {
            self.running = Some(co.suspend_from(nested));
        }
        match self.running.as_mut().unwrap().poll(co) {
            Poll::Pending => {
                self.waiting = true;
                Poll::Pending
            }
            Poll::Ready(output) => {
                self.waiting = false;
                self.done = true;
                Poll::Ready(output * 10)
            }
        }
    }
}

/// Drives `g` with unit resume values and returns every value it suspended with and its output
fn drive<Y, O, F: GeneratorFlavor<Slot<Y, ()>>, B: Suspendable<Y, (), O>>(
    g: &mut Gn<Y, (), O, F, B>,
) -> (Vec<Y>, O) {
    let mut yielded = Vec::new();
    let mut state = g.start();
    loop {
        match state {
            GnState::Suspended(value) => yielded.push(value),
            GnState::Completed(output) => return (yielded, output),
        }
        state = g.resume(());
    }
}

#[test]
fn scenario_suspend_once_then_complete() {
    let mut g = local::Gn::new(script(vec![10], 99));
    assert!(matches!(g.start(), GnState::Suspended(10)));
    assert!(matches!(g.resume(()), GnState::Completed(99)));
}

#[test]
fn scenario_complete_without_suspending() {
    let mut g: local::Gn<i32, (), &str, Script<i32, &str>> = local::Gn::new(script(vec![], "done"));
    assert!(matches!(g.start(), GnState::Completed("done")));
}

#[test]
fn scenario_iteration_ends_and_stays_ended() {
    let mut g = local::Gn::new(script(vec![1, 2, 3], ()));
    assert_eq!(g.next(), Some(1));
    assert_eq!(g.next(), Some(2));
    assert_eq!(g.next(), Some(3));
    assert_eq!(g.next(), None);
    assert_eq!(g.next(), None);
    assert!(g.started());
}

#[test]
fn iteration_over_stack_generators() {
    let mut g = sync::StackGn::new(sync::StackCellSlot::default(), script(vec!['a', 'b'], ()));
    let mut items = Vec::new();
    while let Some(item) = g.next() {
        items.push(item);
    }
    assert_eq!(items, vec!['a', 'b']);
    assert_eq!(g.next(), None);
}

#[test]
fn suspension_count_matches_results_in_every_flavor() {
    for n in 0..5usize {
        let values: Vec<usize> = (0..n).map(|i| i * 3 + 1).collect();

        let mut g = local::Gn::new(script(values.clone(), n));
        assert_eq!(drive(&mut g), (values.clone(), n));

        let mut g = sync::Gn::new(script(values.clone(), n));
        assert_eq!(drive(&mut g), (values.clone(), n));

        let mut g = local::StackGn::new(local::StackCellSlot::default(), script(values.clone(), n));
        assert_eq!(drive(&mut g), (values.clone(), n));

        let mut g = sync::StackGn::new(sync::StackCellSlot::default(), script(values.clone(), n));
        assert_eq!(drive(&mut g), (values.clone(), n));
    }
}

#[test]
fn resume_values_reach_the_suspension_points_unchanged() {
    let mut g = sync::Gn::new(recorder(3));
    assert!(matches!(g.start(), GnState::Suspended(0)));
    assert!(matches!(g.resume(10), GnState::Suspended(1)));
    assert!(matches!(g.resume(20), GnState::Suspended(2)));
    match g.resume(u64::MAX) {
        GnState::Completed(received) => assert_eq!(received, vec![10, 20, u64::MAX]),
        GnState::Suspended(_) => panic!(),
    }
}

#[test]
fn started_becomes_true_at_start_and_stays_true() {
    let mut g = local::Gn::new(script(vec![5], 6));
    assert!(!g.started());
    assert!(!g.started());
    assert!(matches!(g.start(), GnState::Suspended(5)));
    assert!(g.started());
    assert!(matches!(g.resume(()), GnState::Completed(6)));
    assert!(g.started());

    let mut g: local::Gn<i32, (), i32, Script<i32, i32>> = local::Gn::new(script(vec![], 1));
    assert!(!g.started());
    assert!(matches!(g.start(), GnState::Completed(1)));
    assert!(g.started());
}

fn holding(guard: &Rc<()>, count: u32) -> Holding {
    Holding {
        guard: Rc::clone(guard),
        count,
        waiting: None,
        done: false,
    }
}

#[test]
fn dropping_at_any_point_releases_what_the_computation_holds() {
    let tracker = Rc::new(());

    let g = local::Gn::new(holding(&tracker, 2));
    assert_eq!(Rc::strong_count(&tracker), 2);
    drop(g);
    assert_eq!(Rc::strong_count(&tracker), 1);

    let mut g = local::Gn::new(holding(&tracker, 2));
    match g.start() {
        GnState::Suspended(value) => drop(value),
        GnState::Completed(()) => panic!(),
    }
    assert_eq!(Rc::strong_count(&tracker), 2);
    drop(g);
    assert_eq!(Rc::strong_count(&tracker), 1);

    let mut g = sync::StackGn::new(sync::StackCellSlot::default(), holding(&tracker, 1));
    assert!(matches!(g.start(), GnState::Suspended(_)));
    assert!(matches!(g.resume(()), GnState::Completed(())));
    drop(g);
    assert_eq!(Rc::strong_count(&tracker), 1);
}

#[test]
fn suspend_from_splices_the_nested_suspensions() {
    let nested = sync::Gn::new(script(vec![1u32, 2, 3], 7u32));
    let mut g = local::Gn::new(delegating(nested));
    assert!(matches!(g.start(), GnState::Suspended(1)));
    assert!(matches!(g.resume(0), GnState::Suspended(2)));
    assert!(matches!(g.resume(0), GnState::Suspended(3)));
    assert!(matches!(g.resume(0), GnState::Completed(70)));
}

#[test]
fn suspend_from_without_nested_suspensions_completes_at_once() {
    let nested = sync::Gn::new(script(Vec::<u32>::new(), 4u32));
    let mut g = local::Gn::new(delegating(nested));
    assert!(matches!(g.start(), GnState::Completed(40)));
}

/// Delegates to a nested recorder and completes with what it received
struct Forwarding {
    running: Option<SuspendFrom<u32, u64, Vec<u64>, StackLocal, Recorder>>,
    nested: Option<local::StackGn<u32, u64, Vec<u64>, Recorder>>,
    waiting: bool,
}

impl Suspendable<u32, u64, Vec<u64>> for Forwarding {
    fn inv(&self) -> bool {
        true
    }

    fn parked(&self) -> bool {
        self.waiting
    }

    fn completed(&self) -> bool {
        self.running.is_some() && !self.waiting
    }

    fn advances(&self, _: Option<u64>, next: &Self, result: GnState<u32, Vec<u64>>) -> bool {
        next.waiting == matches!(result, GnState::Suspended(_))
    }

    fn poll<F: GeneratorFlavor<Slot<u32, u64>>>(
        &mut self,
        co: &mut Co<u32, u64, F>,
    ) -> Poll<Vec<u64>> {
        if let Some(nested) = self.nested.take() {
            self.running = Some(co.suspend_from(nested));
        }
        let state = self.running.as_mut().unwrap().poll(co);
        self.waiting = matches!(state, Poll::Pending);
        state
    }
}

#[test]
fn suspend_from_forwards_resume_values() {
    let nested = local::StackGn::new(local::StackCellSlot::default(), recorder(2));
    let mut g = sync::Gn::new(Forwarding {
        running: None,
        nested: Some(nested),
        waiting: false,
    });
    assert!(matches!(g.start(), GnState::Suspended(0)));
    assert!(matches!(g.resume(5), GnState::Suspended(1)));
    match g.resume(6) {
        GnState::Completed(received) => assert_eq!(received, vec![5, 6]),
        GnState::Suspended(_) => panic!(),
    }
}

#[test]
fn generators_from_parts() {
    let co = Co::<u8, (), HeapLocal>::new_heap(CellSlot::default());
    let mut g = Gn::from_parts(co, script(vec![8u8], "end"));
    assert!(matches!(g.start(), GnState::Suspended(8)));
    assert!(matches!(g.resume(()), GnState::Completed("end")));

    let co = Co::<u8, (), StackSync>::new_stacked(CellSlot::default());
    let mut g = Gn::from_parts(co, script(vec![], "empty"));
    assert!(matches!(g.start(), GnState::Completed("empty")));
}

#[test]
fn interrupt_first_poll_deposits() {
    let mut co = Co::<&str, u16, StackLocal>::new_stacked(CellSlot::default());
    let mut interrupt = co.suspend("ping");
    assert!(matches!(interrupt.poll(&mut co), Poll::Pending));
}

#[test]
fn gn_state_debug_output() {
    assert_eq!(format!("{:?}", GnState::<i32, i32>::Suspended(10)), "Suspended(10)");
    assert_eq!(
        format!("{:?}", GnState::<i32, &str>::Completed("done")),
        "Completed(\"done\")"
    );
}

#[test]
fn slot_conversions() {
    assert_eq!(Slot::<u8, char>::YieldValue(4).into_yield_value(), Some(4));
    assert_eq!(Slot::<u8, char>::ResumeValue('r').into_yield_value(), None);
    assert_eq!(Slot::<u8, char>::Empty.into_yield_value(), None);
    assert_eq!(Slot::<u8, char>::ResumeValue('r').into_resume_value(), Some('r'));
    assert_eq!(Slot::<u8, char>::YieldValue(4).into_resume_value(), None);
    assert_eq!(Slot::<u8, char>::Empty.into_resume_value(), None);
}
