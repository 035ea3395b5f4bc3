//! The bounded history that received payloads go to, newest first.
use vstd::prelude::*;

verus! {

/// The history after `data` arrives: it comes first and, once the capacity
/// is reached, the oldest entry leaves.
pub open spec fn appended(history: Seq<Vec<u8>>, data: Vec<u8>, capacity: nat) -> Seq<Vec<u8>> {
    if capacity == 0 {
        Seq::empty()
    } else if history.len() < capacity {
        seq![data] + history
    } else {
        seq![data] + history.take(capacity - 1)
    }
}

/// A history of byte entries, newest first, holding at most `capacity`.
pub struct Clipboard {
    pub content: Vec<Vec<u8>>,
    pub capacity: u32,
    pub size: u32,
    pub updated: bool,
}

impl Clipboard {
    /// `size` counts the entries, which are at most `capacity`.
    pub open spec fn wf(&self) -> bool {
        &&& self.size as int == self.content@.len()
        &&& self.content@.len() <= self.capacity
    }

    /// An empty history that keeps at most `capacity` entries.
    pub fn new(capacity: u32) -> (r: Clipboard)
        ensures
            r.wf(),
            r.content@ == Seq::<Vec<u8>>::empty(),
            r.capacity == capacity,
            !r.updated,
    {
        Clipboard { content: Vec::new(), capacity, size: 0, updated: false }
    }

    /// Puts `data` first, dropping the oldest entry when the history is full.
    pub fn append(&mut self, data: Vec<u8>)
        requires
            old(self).wf(),
        ensures
            final(self).wf(),
            final(self).capacity == old(self).capacity,
            final(self).content@ == appended(old(self).content@, data, old(self).capacity as nat),
            final(self).updated,
    {
        let ghost before = self.content@;
        while self.content.len() >= self.capacity as usize && self.content.len() > 0
            invariant
                self.capacity == old(self).capacity,
                before == old(self).content@,
                before.len() <= self.capacity,
                self.content@.len() <= before.len(),
                self.content@ == before.take(self.content@.len() as int),
                self.content@.len() == before.len() || self.content@.len() + 1 >= self.capacity,
            decreases self.content@.len(),
        {
            self.content.pop();
            assert(before.take(self.content@.len() + 1int).drop_last() =~= before.take(
                self.content@.len() as int,
            ));
        }
        let ghost kept = self.content@;
        if self.capacity > 0 {
            self.content.insert(0, data);
        }
        proof {
            if self.capacity > 0 {
                assert(self.content@ =~= seq![data] + kept);
                assert(before.take(before.len() as int) =~= before);
                assert(self.content@ =~= appended(before, data, self.capacity as nat));
            }
        }
        self.size = self.content.len() as u32;
        self.updated = true;
    }
}

/// What Alt+V pastes: a copy of the newest entry, if there is one.
pub fn press_alt_v(clipboard: &Clipboard) -> (r: Option<Vec<u8>>)
    ensures
        clipboard.content@.len() == 0 ==> r is None,
        clipboard.content@.len() > 0 ==> (r matches Some(v) && v@ == clipboard.content@[0]@),
{
    if clipboard.content.len() == 0 {
        None
    } else {
        Some(clipboard.content[0].clone())
    }
}

} // verus!
