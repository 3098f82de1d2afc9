use vstd::prelude::*;
use crate::entry::Schema;

verus! {

/// The dispatch of a list of jobs with a bound on how many are in flight at
/// once. Jobs go out in order; each one that went out is later reported
/// complete, whatever its outcome.
pub struct Pipeline {
    jobs: Vec<Schema>,
    next: usize,
    in_flight: usize,
    done: usize,
    limit: usize,
}

impl Pipeline {
    /// The jobs to dispatch.
    pub closed spec fn spec_jobs(&self) -> Seq<Schema> {
        self.jobs@
    }

    /// How many jobs went out.
    pub closed spec fn spec_dispatched(&self) -> nat {
        self.next as nat
    }

    /// How many jobs went out and are not complete.
    pub closed spec fn spec_in_flight(&self) -> nat {
        self.in_flight as nat
    }

    /// How many jobs are complete.
    pub closed spec fn spec_done(&self) -> nat {
        self.done as nat
    }

    /// The bound on jobs in flight.
    pub closed spec fn spec_limit(&self) -> nat {
        self.limit as nat
    }

    /// The pipeline's invariant.
    pub closed spec fn wf(&self) -> bool {
        &&& self.next <= self.jobs@.len()
        &&& 0 < self.limit
        &&& self.in_flight <= self.limit
        &&& self.done + self.in_flight == self.next
    }

    /// A pipeline for `jobs` with at most `limit` of them in flight.
    pub fn new(jobs: Vec<Schema>, limit: usize) -> (r: Pipeline)
        requires
            limit > 0,
        ensures
            r.wf(),
            r.spec_jobs() == jobs@,
            r.spec_limit() == limit,
            r.spec_dispatched() == 0,
            r.spec_in_flight() == 0,
            r.spec_done() == 0,
    {
        Pipeline { jobs, next: 0, in_flight: 0, done: 0, limit }
    }

    /// The next job to send, where one is left and fewer than the bound are
    /// in flight; it then counts as in flight. Otherwise nothing changes.
    pub fn dispatch(&mut self) -> (r: Option<Schema>)
        requires
            old(self).wf(),
        ensures
            final(self).wf(),
            final(self).spec_in_flight() <= final(self).spec_limit(),
            final(self).spec_jobs() == old(self).spec_jobs(),
            final(self).spec_limit() == old(self).spec_limit(),
            final(self).spec_done() == old(self).spec_done(),
            if old(self).spec_in_flight() < old(self).spec_limit() && old(self).spec_dispatched()
                < old(self).spec_jobs().len() {
                &&& r is Some
                &&& r->0@ == old(self).spec_jobs()[old(self).spec_dispatched() as int]@
                &&& final(self).spec_dispatched() == old(self).spec_dispatched() + 1
                &&& final(self).spec_in_flight() == old(self).spec_in_flight() + 1
            } else {
                &&& r is None
                &&& final(self).spec_dispatched() == old(self).spec_dispatched()
                &&& final(self).spec_in_flight() == old(self).spec_in_flight()
            },
    {
        if self.in_flight < self.limit && self.next < self.jobs.len() {
            let job = &self.jobs[self.next];
            let r = Schema {
                filename: job.filename.clone(),
                download_dir: job.download_dir.clone(),
            };
            self.next = self.next + 1;
            self.in_flight = self.in_flight + 1;
            Some(r)
        } else {
            None
        }
    }

    /// Records that one job in flight has its outcome, success or failure.
    pub fn complete(&mut self)
        requires
            old(self).wf(),
            old(self).spec_in_flight() > 0,
        ensures
            final(self).wf(),
            final(self).spec_in_flight() <= final(self).spec_limit(),
            final(self).spec_jobs() == old(self).spec_jobs(),
            final(self).spec_limit() == old(self).spec_limit(),
            final(self).spec_dispatched() == old(self).spec_dispatched(),
            final(self).spec_in_flight() + 1 == old(self).spec_in_flight(),
            final(self).spec_done() == old(self).spec_done() + 1,
    {
        self.in_flight = self.in_flight - 1;
        self.done = self.done + 1;
    }

    /// Whether every job has its outcome.
    pub fn is_finished(&self) -> (r: bool)
        requires
            self.wf(),
        ensures
            r == (self.spec_done() == self.spec_jobs().len()),
            r ==> self.spec_in_flight() == 0 && self.spec_dispatched() == self.spec_jobs().len(),
    {
        self.done == self.jobs.len()
    }

    /// How many jobs are in flight.
    pub fn in_flight(&self) -> (r: usize)
        ensures
            r == self.spec_in_flight(),
    {
        self.in_flight
    }

    /// The bound on jobs in flight.
    pub fn limit(&self) -> (r: usize)
        ensures
            r == self.spec_limit(),
    {
        self.limit
    }

    /// In every state that the pipeline's operations reach, no more jobs are
    /// in flight than the bound allows, and the bound is positive.
    pub proof fn lemma_in_flight_within_limit(&self)
        requires
            self.wf(),
        ensures
            self.spec_in_flight() <= self.spec_limit(),
            self.spec_limit() > 0,
    {
    }
}

} // verus!
