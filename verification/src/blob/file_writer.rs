//! The hand-over of finished packs to the task that stores them.

use vstd::prelude::*;

verus! {

/// The slot of a pipeline that is one deep: it holds the task that stores
/// the pack that was finished last, while the next pack is being built.
pub struct FileWriter<T> {
    future: Option<T>,
}

impl<T> View for FileWriter<T> {
    type V = Option<T>;

    closed spec fn view(&self) -> Option<T> {
        self.future
    }
}

impl<T> FileWriter<T> {
    /// An empty slot.
    pub fn new() -> (writer: FileWriter<T>)
        ensures
            writer@ is None,
    {
        FileWriter { future: None }
    }

    /// Puts a task into the slot and hands out the task that was there: it
    /// is to be awaited before anything else is done, so that no more than
    /// one task runs beside the packer.
    pub fn add(&mut self, task: T) -> (previous: Option<T>)
        ensures
            previous == old(self)@,
            final(self)@ == Some(task),
    {
        let previous = self.future.take();
        self.future = Some(task);
        previous
    }

    /// Empties the slot and hands out the task that was there, which is to
    /// be awaited.
    pub fn finalize(&mut self) -> (last: Option<T>)
        ensures
            last == old(self)@,
            final(self)@ is None,
    {
        self.future.take()
    }
}

} // verus!
