use vstd::prelude::*;
use crate::dependency_controller::{prior_signals, DependencyController, SignalId};
use crate::footprint::{footprint, footprint_of, InputObjectKind, ObjectId};

verus! {

/// Index of a proxy within the pool.
pub type ProxyId = usize;

/// What the admission of one transaction decides: its task id, the signals
/// its task waits for before executing, and the signals it fires afterwards.
pub struct Admission {
    pub task_id: u64,
    pub prior_handles: Vec<SignalId>,
    pub current_handles: Vec<SignalId>,
}

/// The admission side of a proxy worker: it numbers the incoming transactions
/// from 1 and registers each footprint with the proxy's dependency controller.
pub struct ProxyScheduler {
    id: ProxyId,
    task_id: u64,
    dependency_controller: DependencyController,
}

impl ProxyScheduler {
    /// Footprints of the admitted transactions, in admission order.
    pub closed spec fn history(&self) -> Seq<Seq<ObjectId>> {
        self.dependency_controller.history()
    }

    pub closed spec fn spec_id(&self) -> ProxyId {
        self.id
    }

    /// The last task id handed out is the number of admissions so far.
    pub closed spec fn wf(&self) -> bool {
        &&& self.dependency_controller.wf()
        &&& self.task_id == self.dependency_controller.history().len()
    }

    /// A scheduler for proxy `id` that has admitted nothing.
    pub fn new(id: ProxyId) -> (r: Self)
        ensures
            r.wf(),
            r.spec_id() == id,
            r.history() == Seq::<Seq<ObjectId>>::empty(),
    {
        ProxyScheduler { id, task_id: 0, dependency_controller: DependencyController::new() }
    }

    pub fn id(&self) -> (r: ProxyId)
        ensures
            r == self.spec_id(),
    {
        self.id
    }

    /// Number of transactions admitted so far.
    pub fn admitted(&self) -> (r: u64)
        requires
            self.wf(),
        ensures
            r == self.history().len(),
    {
        self.task_id
    }

    /// Whether another task id is left to hand out.
    pub fn can_schedule(&self) -> (r: bool)
        requires
            self.wf(),
        ensures
            r == (self.history().len() < u64::MAX),
    {
        self.task_id < u64::MAX
    }

    /// Admits one transaction, given its input objects: assigns the next task
    /// id, computes the footprint and takes its dependencies.
    pub fn schedule(&mut self, inputs: &Vec<InputObjectKind>) -> (r: Admission)
        requires
            old(self).wf(),
            old(self).history().len() < u64::MAX,
        ensures
            final(self).wf(),
            final(self).spec_id() == old(self).spec_id(),
            final(self).history() == old(self).history().push(footprint_of(inputs@)),
            r.task_id == old(self).history().len() + 1,
            r.prior_handles@.no_duplicates(),
            r.prior_handles@.to_set() == prior_signals(
                final(self).history(),
                old(self).history().len() as int,
            ),
            r.current_handles@ == seq![r.task_id],
    {
        self.task_id = self.task_id + 1;
        let obj_ids = footprint(inputs);
        let (prior_handles, current_handles) = self.dependency_controller.get_dependencies(
            self.task_id,
            obj_ids,
        );
        Admission { task_id: self.task_id, prior_handles, current_handles }
    }
}

} // verus!
