use vstd::prelude::*;

verus! {

/// Fixed-capacity container indexed by `sequence % partition_by`.  Slots hold
/// no per-entry sequence tag: callers keep collisions away by sizing their
/// windows well below the partition size.
pub struct SequenceBuffer<T> {
    pub values: Vec<Option<T>>,
    pub partition_by: u16,
}

impl<T> SequenceBuffer<T> {
    pub open spec fn wf(self) -> bool {
        self.partition_by > 0 && self.values@.len() == self.partition_by
    }

    /// The slot that stores `sequence`.
    pub open spec fn slot(self, sequence: u16) -> int {
        sequence as int % self.partition_by as int
    }

    pub fn sequence_to_index(&self, sequence: u16) -> (r: usize)
        requires
            self.partition_by > 0,
        ensures
            r == self.slot(sequence),
            r < self.partition_by,
    {
        (sequence % self.partition_by) as usize
    }

    pub fn insert(&mut self, sequence: u16, value: T)
        requires
            old(self).wf(),
        ensures
            final(self).partition_by == old(self).partition_by,
            final(self).values@ == old(self).values@.update(
                old(self).slot(sequence),
                Some(value),
            ),
    {
        let index = self.sequence_to_index(sequence);
        self.values.set(index, Some(value));
    }

    pub fn remove(&mut self, sequence: u16)
        requires
            old(self).wf(),
        ensures
            final(self).partition_by == old(self).partition_by,
            final(self).values@ == old(self).values@.update(
                old(self).slot(sequence),
                None::<T>,
            ),
    {
        let index = self.sequence_to_index(sequence);
        self.values.set(index, None);
    }

    pub fn remove_at_index(&mut self, index: usize)
        requires
            index < old(self).values@.len(),
        ensures
            final(self).partition_by == old(self).partition_by,
            final(self).values@ == old(self).values@.update(index as int, None::<T>),
    {
        self.values.set(index, None);
    }

    pub fn is_some(&self, sequence: u16) -> (r: bool)
        requires
            self.wf(),
        ensures
            r == self.values@[self.slot(sequence)] is Some,
    {
        let index = self.sequence_to_index(sequence);
        self.values[index].is_some()
    }

    pub fn take(&mut self, sequence: u16) -> (r: Option<T>)
        requires
            old(self).wf(),
        ensures
            final(self).partition_by == old(self).partition_by,
            r == old(self).values@[old(self).slot(sequence)],
            final(self).values@ == old(self).values@.update(
                old(self).slot(sequence),
                None::<T>,
            ),
    {
        let index = self.sequence_to_index(sequence);
        let slot = &mut self.values[index];
        slot.take()
    }

    pub fn get(&self, sequence: u16) -> (r: Option<&T>)
        requires
            self.wf(),
        ensures
            match r {
                Some(v) => self.values@[self.slot(sequence)] == Some(*v),
                None => self.values@[self.slot(sequence)] is None,
            },
    {
        let index = self.sequence_to_index(sequence);
        self.values[index].as_ref()
    }

    pub fn get_at_index(&self, index: usize) -> (r: Option<&T>)
        ensures
            index < self.values@.len() ==> match r {
                Some(v) => self.values@[index as int] == Some(*v),
                None => self.values@[index as int] is None,
            },
            index >= self.values@.len() ==> r is None,
    {
        if index < self.values.len() {
            self.values[index].as_ref()
        } else {
            None
        }
    }

    pub fn get_mut(&mut self, sequence: u16) -> (r: Option<&mut T>)
        requires
            old(self).wf(),
        ensures
            final(self).partition_by == old(self).partition_by,
            r is None ==> old(self).values@[old(self).slot(sequence)] is None
                && final(self).values@ == old(self).values@.update(
                old(self).slot(sequence),
                None::<T>,
            ),
            r is Some ==> old(self).values@[old(self).slot(sequence)] == Some(*r.unwrap())
                && final(self).values@ == old(self).values@.update(
                old(self).slot(sequence),
                Some(*final(r.unwrap())),
            ),
    {
        let index = self.sequence_to_index(sequence);
        let slot = &mut self.values[index];
        slot.as_mut()
    }
}

} // verus!
