//! The record of a multimedia scheduling boost that the operating system granted
//! to the playback thread.

use vstd::prelude::*;

verus! {

/// A boost of the calling thread's scheduling class, as the operating system reported it.
///
/// The caller asks the system for the "Pro Audio" task and stores what came back here;
/// it reverts the boost with `handle()` when playback ends.
#[derive(Debug)]
pub struct ThreadBoost {
    handle: isize,
    task_index: u32,
}

impl ThreadBoost {
    /// The handle that reverts the boost.
    pub closed spec fn spec_handle(&self) -> isize {
        self.handle
    }

    /// The index of the task that the thread joined.
    pub closed spec fn spec_task_index(&self) -> u32 {
        self.task_index
    }

    /// Records a boost from the handle and the task index that the system returned.
    pub fn new(handle: isize, task_index: u32) -> (boost: Self)
        ensures
            boost.handle() == handle,
            boost.task_index() == task_index,
    {
        Self { handle, task_index }
    }

    /// The handle that reverts the boost.
    #[verifier::when_used_as_spec(spec_handle)]
    pub fn handle(&self) -> (handle: isize)
        ensures
            handle == self.spec_handle(),
    {
        self.handle
    }

    /// The index of the task that the thread joined.
    #[verifier::when_used_as_spec(spec_task_index)]
    pub fn task_index(&self) -> (index: u32)
        ensures
            index == self.spec_task_index(),
    {
        self.task_index
    }
}

} // verus!
