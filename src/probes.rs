//! Field probes (monitors) and the decisions of the run loop.
use vstd::prelude::*;

use crate::fields::{Component, FieldSet};

verus! {

/// A probe: one component sampled at one cell once per time step.
pub struct Monitor<T> {
    pub position: [usize; 3],
    pub component: Component,
    pub samples: Vec<T>,
}

/// The probes of a simulation, in the order they were added.
pub struct Probes<T> {
    monitors: Vec<Monitor<T>>,
}

impl<T: Copy> Probes<T> {
    pub closed spec fn len(&self) -> nat {
        self.monitors@.len()
    }

    pub closed spec fn probe_position(&self, m: int) -> [usize; 3] {
        self.monitors@[m].position
    }

    pub closed spec fn probe_component(&self, m: int) -> Component {
        self.monitors@[m].component
    }

    /// Samples recorded so far by probe `m`, oldest first.
    pub closed spec fn probe_samples(&self, m: int) -> Seq<T> {
        self.monitors@[m].samples@
    }

    pub fn new() -> (r: Self)
        ensures
            r.len() == 0,
    {
        Probes { monitors: Vec::new() }
    }

    /// Adds a probe with no samples and returns its index.
    pub fn add_monitor(&mut self, position: [usize; 3], component: Component) -> (r: usize)
        requires
            old(self).len() < usize::MAX,
        ensures
            r == old(self).len(),
            final(self).len() == old(self).len() + 1,
            final(self).probe_position(r as int) == position,
            final(self).probe_component(r as int) == component,
            final(self).probe_samples(r as int) == Seq::<T>::empty(),
            forall|m: int|
                0 <= m < old(self).len() ==> #[trigger] final(self).probe_samples(m) == old(self).probe_samples(m)
                    && final(self).probe_position(m) == old(self).probe_position(m) && final(self).probe_component(m)
                    == old(self).probe_component(m),
    {
        let r = self.monitors.len();
        self.monitors.push(Monitor { position, component, samples: Vec::new() });
        r
    }

    /// Appends to every probe the current value of its component at its cell.
    pub fn record(&mut self, fields: &FieldSet<T>)
        requires
            fields.wf(),
            forall|m: int|
                0 <= m < old(self).len() ==> fields.shape().contains(
                    #[trigger] old(self).probe_position(m)[0] as int,
                    old(self).probe_position(m)[1] as int,
                    old(self).probe_position(m)[2] as int,
                ),
        ensures
            final(self).len() == old(self).len(),
            forall|m: int|
                0 <= m < old(self).len() ==> {
                    &&& #[trigger] final(self).probe_position(m) == old(self).probe_position(m)
                    &&& final(self).probe_component(m) == old(self).probe_component(m)
                    &&& final(self).probe_samples(m) == old(self).probe_samples(m).push(
                        fields.field(old(self).probe_component(m)).at(
                            old(self).probe_position(m)[0] as int,
                            old(self).probe_position(m)[1] as int,
                            old(self).probe_position(m)[2] as int,
                        ),
                    )
                },
    {
        let ghost before = *self;
        let mut m: usize = 0;
        while m < self.monitors.len()
            invariant
                fields.wf(),
                self.len() == before.len(),
                m <= self.len(),
                forall|q: int|
                    0 <= q < before.len() ==> fields.shape().contains(
                        #[trigger] before.probe_position(q)[0] as int,
                        before.probe_position(q)[1] as int,
                        before.probe_position(q)[2] as int,
                    ),
                forall|q: int|
                    0 <= q < before.len() ==> #[trigger] self.probe_position(q) == before.probe_position(q),
                forall|q: int|
                    0 <= q < before.len() ==> #[trigger] self.probe_component(q) == before.probe_component(q),
                forall|q: int|
                    0 <= q < m ==> #[trigger] self.probe_samples(q) == before.probe_samples(q).push(
                        fields.field(before.probe_component(q)).at(
                            before.probe_position(q)[0] as int,
                            before.probe_position(q)[1] as int,
                            before.probe_position(q)[2] as int,
                        ),
                    ),
                forall|q: int| m <= q < before.len() ==> #[trigger] self.probe_samples(q) == before.probe_samples(q),
            decreases self.len() - m,
        {
            let pos = self.monitors[m].position;
            let c = self.monitors[m].component;
            assert(fields.shape().contains(pos[0] as int, pos[1] as int, pos[2] as int)) by {
                assert(self.probe_position(m as int) == before.probe_position(m as int));
            }
            let v = fields.get_field(pos[0], pos[1], pos[2], c);
            let ghost start = *self;
            assert(start.probe_position(m as int) == before.probe_position(m as int));
            assert(start.probe_component(m as int) == before.probe_component(m as int));
            assert(start.probe_samples(m as int) == before.probe_samples(m as int));
            assert(forall|q: int| 0 <= q < before.len() ==> #[trigger] start.monitors@[q] == self.monitors@[q]);
            let ghost prev = self.monitors@;
            let mut mon = self.monitors.remove(m);
            let ghost taken = mon;
            mon.samples.push(v);
            let ghost put = mon;
            self.monitors.insert(m, mon);
            proof {
                assert(taken == prev[m as int]);
                assert(put.samples@ == taken.samples@.push(v));
                assert(self.monitors@[m as int] == put);
                assert forall|q: int| 0 <= q < prev.len() && q != m implies #[trigger] self.monitors@[q]
                    == prev[q] by {
                    if q < m {
                    } else {
                    }
                }
                assert forall|q: int| 0 <= q < before.len() implies #[trigger] self.probe_position(q)
                    == before.probe_position(q) by {
                    assert(start.probe_position(q) == before.probe_position(q));
                }
                assert forall|q: int| 0 <= q < before.len() implies #[trigger] self.probe_component(q)
                    == before.probe_component(q) by {
                    assert(start.probe_component(q) == before.probe_component(q));
                }
                assert forall|q: int| 0 <= q < m + 1 implies #[trigger] self.probe_samples(q) == before.probe_samples(q).push(
                        fields.field(before.probe_component(q)).at(
                            before.probe_position(q)[0] as int,
                            before.probe_position(q)[1] as int,
                            before.probe_position(q)[2] as int,
                        ),
                    ) by {
                    assert(start.probe_position(q) == before.probe_position(q));
                    assert(start.probe_component(q) == before.probe_component(q));
                    if q < m {
                        assert(start.probe_samples(q) == before.probe_samples(q).push(
                        fields.field(before.probe_component(q)).at(
                            before.probe_position(q)[0] as int,
                            before.probe_position(q)[1] as int,
                            before.probe_position(q)[2] as int,
                        ),
                    ));
                    }
                }
                assert forall|q: int| m + 1 <= q < before.len() implies #[trigger] self.probe_samples(q) == before.probe_samples(q) by {
                    assert(start.probe_samples(q) == before.probe_samples(q));
                }
            }
            m = m + 1;
        }
    }

    /// Samples of probe `idx`, or `None` when there is no such probe.
    pub fn get_monitor_samples(&self, idx: usize) -> (r: Option<&[T]>)
        ensures
            idx < self.len() ==> (r matches Some(s) && s@ == self.probe_samples(idx as int)),
            idx >= self.len() ==> r is None,
    {
        if idx < self.monitors.len() {
            Some(self.monitors[idx].samples.as_slice())
        } else {
            None
        }
    }
}

/// Step counter and probes of a running simulation: the bookkeeping that
/// closes every time step.
pub struct RunState<T> {
    pub probes: Probes<T>,
    pub time_step: usize,
}

impl<T: Copy> RunState<T> {
    pub fn new() -> (r: Self)
        ensures
            r.time_step == 0,
            r.probes.len() == 0,
    {
        RunState { probes: Probes::new(), time_step: 0 }
    }

    /// Closes a time step once the fields are updated: every probe gains
    /// exactly one sample, taken from `fields`, and the step count grows by one.
    pub fn finish_step(&mut self, fields: &FieldSet<T>)
        requires
            old(self).time_step < usize::MAX,
            fields.wf(),
            forall|m: int|
                0 <= m < old(self).probes.len() ==> fields.shape().contains(
                    #[trigger] old(self).probes.probe_position(m)[0] as int,
                    old(self).probes.probe_position(m)[1] as int,
                    old(self).probes.probe_position(m)[2] as int,
                ),
        ensures
            final(self).time_step == old(self).time_step + 1,
            final(self).probes.len() == old(self).probes.len(),
            forall|m: int|
                0 <= m < old(self).probes.len() ==> {
                    &&& #[trigger] final(self).probes.probe_position(m) == old(self).probes.probe_position(m)
                    &&& final(self).probes.probe_component(m) == old(self).probes.probe_component(m)
                    &&& final(self).probes.probe_samples(m) == old(self).probes.probe_samples(m).push(
                        fields.field(old(self).probes.probe_component(m)).at(
                            old(self).probes.probe_position(m)[0] as int,
                            old(self).probes.probe_position(m)[1] as int,
                            old(self).probes.probe_position(m)[2] as int,
                        ),
                    )
                },
    {
        let ghost before = self.probes;
        self.time_step = self.time_step + 1;
        self.probes.record(fields);
        assert forall|m: int| 0 <= m < before.len() implies {
            &&& #[trigger] self.probes.probe_position(m) == before.probe_position(m)
            &&& self.probes.probe_component(m) == before.probe_component(m)
            &&& self.probes.probe_samples(m) == before.probe_samples(m).push(
                fields.field(before.probe_component(m)).at(
                    before.probe_position(m)[0] as int,
                    before.probe_position(m)[1] as int,
                    before.probe_position(m)[2] as int,
                ),
            )
        } by {
            assert(self.probes.probe_position(m) == before.probe_position(m));
        }
    }
}

/// Steps that must have run before the ringdown test may end a run.
pub const DECAY_MIN_STEPS: usize = 100;

/// Whether a run that waits for the probe signal to ring down stops after the
/// step with index `step`. `new_peak` tells whether the latest magnitude
/// exceeded every earlier one, `below_threshold` whether it fell below the
/// threshold fraction of the running peak. The test applies only after the
/// first `DECAY_MIN_STEPS + 1` steps.
pub fn decay_should_stop(step: usize, new_peak: bool, below_threshold: bool) -> (r: bool)
    ensures
        r == (!new_peak && below_threshold && step > DECAY_MIN_STEPS),
{
    !new_peak && below_threshold && step > DECAY_MIN_STEPS
}

} // verus!
