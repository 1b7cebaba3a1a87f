//! The scheduler abstraction: one operation, submit a unit of deferred work.
//! It hides the concurrency substrate — a thread pool, a cooperative
//! single-threaded loop, or a host-runtime worker — so callers must not
//! assume either pre-emptive parallelism or a single context.

use vstd::prelude::*;
use crate::request::{TileRequest, TileRequestID};

verus! {

/// Submission failed: the executor behind the scheduler no longer accepts
/// work. Fatal to this unit of work only.
#[derive(Clone, Copy, Debug, PartialEq, Eq, Structural)]
pub struct ScheduleError;

/// One unit of deferred work: fetch, parse and tessellate one admitted tile
/// request.
#[derive(Debug)]
pub struct WorkUnit {
    pub request_id: TileRequestID,
    pub request: TileRequest,
}

/// A concurrency substrate that runs units of deferred work.
pub trait ScheduleMethod {
    /// Submits one unit of work; whether, where and when it runs is the
    /// substrate's business.
    fn schedule(&mut self, work: WorkUnit) -> Result<(), ScheduleError>;
}

/// Runs the pipeline over a pluggable schedule method.
#[derive(Debug)]
pub struct Scheduler<SM: ScheduleMethod> {
    pub schedule_method: SM,
}

impl<SM: ScheduleMethod> Scheduler<SM> {
    pub fn new(schedule_method: SM) -> (r: Self)
        ensures
            r.schedule_method == schedule_method,
    {
        Self { schedule_method }
    }

    pub fn schedule_method(&self) -> (r: &SM)
        ensures
            r == &self.schedule_method,
    {
        &self.schedule_method
    }
}

/// The cooperative single-context substrate: submitted work is queued and
/// run, in submission order, whenever the owning context next polls.
#[derive(Debug)]
pub struct CooperativeScheduleMethod {
    pub queue: Vec<WorkUnit>,
}

impl CooperativeScheduleMethod {
    pub fn new() -> (r: Self)
        ensures
            r.queue@.len() == 0,
    {
        Self { queue: Vec::new() }
    }

    /// Hands out the oldest queued unit of work, if any.
    pub fn take_next(&mut self) -> (r: Option<WorkUnit>)
        ensures
            old(self).queue@.len() == 0 ==> r is None && *final(self) == *old(self),
            old(self).queue@.len() > 0 ==> ({
                &&& r matches Some(w)
                &&& w == old(self).queue@[0]
                &&& final(self).queue@ == old(self).queue@.drop_first()
            }),
    {
        if self.queue.len() == 0 {
            None
        } else {
            let w = self.queue.remove(0);
            proof {
                assert(self.queue@ =~= old(self).queue@.drop_first());
            }
            Some(w)
        }
    }
}

impl ScheduleMethod for CooperativeScheduleMethod {
    /// Queues the unit behind the ones already submitted; it runs when the
    /// owning context next polls, in submission order.
    fn schedule(&mut self, work: WorkUnit) -> (r: Result<(), ScheduleError>)
        ensures
            final(self).queue@ == old(self).queue@.push(work),
            r is Ok,
    {
        self.queue.push(work);
        Ok(())
    }
}

} // verus!
