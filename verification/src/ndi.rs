//! NDI sources as the rest of the library sees them, and the receivers the
//! receiver loop runs.

use crate::source_selector::{contains_monitor, MonitorId};
use vstd::prelude::*;

verus! {

/// A discovered NDI source: its name and the handle that stands for the
/// source descriptor itself (its position in the discovery batch it came
/// from).
#[derive(Debug)]
pub struct NdiSource {
    pub name: String,
    pub source: u64,
}

impl Clone for NdiSource {
    fn clone(&self) -> (copy: NdiSource)
        ensures
            copy.name@ == self.name@,
            copy.source == self.source,
    {
        NdiSource { name: self.name.clone(), source: self.source }
    }
}

/// Whether two discovery batches describe the same sources, in the same
/// order: the same names with the same handles.
pub open spec fn same_batch(a: Seq<NdiSource>, b: Seq<NdiSource>) -> bool {
    &&& a.len() == b.len()
    &&& forall|i: int| 0 <= i < a.len() ==> #[trigger] a[i].name@ == b[i].name@ && a[i].source == b[i].source
}

/// Describes one discovery batch, given the name of each source in it:
/// each source by its name, with its position in the batch as its handle.
pub fn describe_sources(names: Vec<String>) -> (described: Vec<NdiSource>)
    ensures
        described.len() == names.len(),
        forall|i: int| 0 <= i < described.len() ==> #[trigger] described[i].source == i
            && described[i].name@ == names[i]@,
{
    let mut described: Vec<NdiSource> = Vec::new();
    let mut i: usize = 0;
    while i < names.len()
        invariant
            i <= names.len(),
            described.len() == i,
            forall|k: int| 0 <= k < described.len() ==> #[trigger] described[k].source == k
                && described[k].name@ == names[k]@,
        decreases names.len() - i,
    {
        described.push(NdiSource { name: names[i].clone(), source: i as u64 });
        i = i + 1;
    }
    described
}

/// The receivers the receiver loop runs, one per monitor, each for a
/// monitor with the window its frames go to. A monitor is recorded once its
/// receiver has started, and stays recorded: so over the loop's lifetime a
/// monitor gets at most one receiver that started, and only a monitor with a
/// window gets one.
pub struct ReceiverRegistry {
    running: Vec<MonitorId>,
}

impl ReceiverRegistry {
    /// The monitors whose receivers run, in the order they started.
    pub closed spec fn running(&self) -> Seq<(Seq<char>, Option<u64>)> {
        self.running@.map_values(|id: MonitorId| id@)
    }

    /// Whether a receiver runs for the monitor of this name.
    pub open spec fn is_running(&self, name: Seq<char>) -> bool {
        exists|i: int| 0 <= i < self.running().len() && #[trigger] self.running()[i].0 == name
    }

    #[verifier::type_invariant]
    spec fn one_per_monitor(self) -> bool {
        &&& forall|i: int, j: int| 0 <= i < j < self.running@.len() ==> self.running@[i]@.0 != self.running@[j]@.0
        &&& forall|i: int| 0 <= i < self.running@.len() ==> (#[trigger] self.running@[i])@.1 is Some
    }

    /// No receiver runs yet.
    pub fn new() -> (registry: ReceiverRegistry)
        ensures
            registry.running().len() == 0,
    {
        ReceiverRegistry { running: Vec::new() }
    }

    /// Whether the receiver loop starts a receiver for this monitor: it has a
    /// window and no receiver runs for it.
    pub fn needs_receiver(&self, monitor_id: &MonitorId) -> (needed: bool)
        ensures
            needed == (monitor_id@.1 is Some && !self.is_running(monitor_id@.0)),
    {
        let needed = monitor_id.has_window_handle() && !contains_monitor(&self.running, monitor_id);
        proof {
            if needed {
                assert forall|i: int| 0 <= i < self.running().len() implies #[trigger] self.running()[i].0
                    != monitor_id@.0 by {
                    assert(self.running()[i] == self.running@[i]@);
                }
            } else if monitor_id@.1 is Some {
                let j = choose|j: int| 0 <= j < self.running.len() && #[trigger] self.running[j]@.0 == monitor_id@.0;
                assert(self.running()[j] == self.running@[j]@);
            }
        }
        needed
    }

    /// Records that the receiver for this monitor started, when the monitor
    /// needs one; a monitor that does not need one leaves the registry as it
    /// is. Afterwards the receivers still run one per monitor, each for a
    /// monitor with a window.
    pub fn record_started(&mut self, monitor_id: MonitorId) -> (recorded: bool)
        ensures
            recorded == (monitor_id@.1 is Some && !old(self).is_running(monitor_id@.0)),
            recorded ==> final(self).running() == old(self).running().push(monitor_id@),
            !recorded ==> final(self).running() == old(self).running(),
            forall|i: int, j: int| 0 <= i < j < final(self).running().len()
                ==> final(self).running()[i].0 != final(self).running()[j].0,
            forall|i: int| 0 <= i < final(self).running().len() ==> (#[trigger] final(self).running()[i]).1 is Some,
    {
        proof {
            use_type_invariant(&*self);
        }
        let needed = self.needs_receiver(&monitor_id);
        if needed {
            let ghost before = self.running@;
            let mut running: Vec<MonitorId> = Vec::new();
            std::mem::swap(&mut running, &mut self.running);
            running.push(monitor_id);
            proof {
                let n = before.len() as int;
                assert(running@[n]@ == monitor_id@);
                assert forall|i: int| 0 <= i < n implies #[trigger] before[i]@.0 != monitor_id@.0 by {
                    assert(before.map_values(|id: MonitorId| id@)[i] == before[i]@);
                }
                assert forall|i: int, j: int| 0 <= i < j < running@.len() implies running@[i]@.0 != running@[j]@.0 by {
                    assert(running@[i] == before[i]);
                    if j < n {
                        assert(running@[j] == before[j]);
                    }
                }
                assert forall|i: int| 0 <= i < running@.len() implies (#[trigger] running@[i])@.1 is Some by {
                    if i < n {
                        assert(running@[i] == before[i]);
                    }
                }
            }
            self.running = running;
            proof {
                assert(self.running@.map_values(|id: MonitorId| id@)
                    =~= before.map_values(|id: MonitorId| id@).push(self.running@[before.len() as int]@));
            }
        }
        proof {
            use_type_invariant(&*self);
            assert forall|i: int, j: int| 0 <= i < j < self.running().len()
                implies self.running()[i].0 != self.running()[j].0 by {
                assert(self.running()[i] == self.running@[i]@);
                assert(self.running()[j] == self.running@[j]@);
            }
            assert forall|i: int| 0 <= i < self.running().len() implies (#[trigger] self.running()[i]).1 is Some by {
                assert(self.running()[i] == self.running@[i]@);
            }
        }
        needed
    }
}

} // verus!
