//! A bounded cache of rendered previews, keyed by path. The oldest
//! insertion leaves first.

use vstd::prelude::*;

verus! {

/// Previews in the order in which their paths were first inserted.
pub struct PreviewCache {
    pub slots: Vec<(String, String)>,
    pub capacity: usize,
}

/// The position of `path` among the slots, if it is cached.
pub open spec fn slot_of(slots: Seq<(String, String)>, path: Seq<char>) -> Option<int>
    decreases slots.len(),
{
    if slots.len() == 0 {
        None
    } else if slots.last().0@ == path {
        Some(slots.len() - 1)
    } else {
        slot_of(slots.drop_last(), path)
    }
}

pub proof fn lemma_slot_of(slots: Seq<(String, String)>, path: Seq<char>)
    ensures
        match slot_of(slots, path) {
            Some(i) => 0 <= i < slots.len() && slots[i].0@ == path,
            None => forall|j: int| 0 <= j < slots.len() ==> slots[j].0@ != path,
        },
    decreases slots.len(),
{
    if slots.len() > 0 && slots.last().0@ != path {
        lemma_slot_of(slots.drop_last(), path);
        assert(forall|j: int| 0 <= j < slots.len() - 1 ==> slots.drop_last()[j] == slots[j]);
    }
}

impl PreviewCache {
    /// No more slots than the capacity, and no path twice.
    pub open spec fn wf(&self) -> bool {
        &&& self.slots@.len() <= self.capacity
        &&& forall|i: int, j: int|
            0 <= i < j < self.slots@.len() ==> self.slots@[i].0@ != self.slots@[j].0@
    }

    /// The cached preview of `path`.
    pub open spec fn lookup(&self, path: Seq<char>) -> Option<Seq<char>> {
        match slot_of(self.slots@, path) {
            Some(i) => Some(self.slots@[i].1@),
            None => None,
        }
    }

    pub open spec fn holds(&self, path: Seq<char>) -> bool {
        slot_of(self.slots@, path) is Some
    }

    /// An empty cache that keeps at most `capacity` previews.
    pub fn new(capacity: usize) -> (c: Self)
        ensures
            c.wf(),
            c.capacity == capacity,
            c.slots@.len() == 0,
    {
        PreviewCache { slots: Vec::new(), capacity }
    }

    /// How many previews are cached.
    pub fn len(&self) -> (n: usize)
        ensures
            n == self.slots@.len(),
    {
        self.slots.len()
    }

    /// Forgets every preview; the capacity stays.
    pub fn clear(&mut self)
        ensures
            final(self).slots@.len() == 0,
            final(self).capacity == old(self).capacity,
            final(self).wf(),
    {
        self.slots.clear();
    }

    fn find(&self, path: &String) -> (r: Option<usize>)
        ensures
            match r {
                Some(i) => slot_of(self.slots@, path@) == Some(i as int) && i < self.slots@.len(),
                None => slot_of(self.slots@, path@) is None,
            },
    {
        let mut i: usize = self.slots.len();
        assert(self.slots@.take(i as int) =~= self.slots@);
        while i > 0
            invariant
                i <= self.slots@.len(),
                slot_of(self.slots@, path@) == slot_of(self.slots@.take(i as int), path@),
            decreases i,
        {
            assert(self.slots@.take(i as int).drop_last() =~= self.slots@.take(i - 1));
            if self.slots[i - 1].0 == *path {
                return Some(i - 1);
            }
            i -= 1;
        }
        None
    }

    /// The cached preview of `path`, if there is one.
    pub fn get(&self, path: &str) -> (r: Option<String>)
        ensures
            match r {
                Some(text) => self.lookup(path@) == Some(text@),
                None => self.lookup(path@) is None,
            },
    {
        let key = String::from_str(path);
        match self.find(&key) {
            Some(i) => Some(self.slots[i].1.clone()),
            None => None,
        }
    }

    /// `post` is `pre` after `preview` was stored for `path`. A path that
    /// was cached keeps its place and has the new text, and every other slot
    /// is as before. A new path stands at the back, behind the slots of
    /// before: all of them where there was room, all but the oldest where
    /// the cache was full. A cache without capacity stays empty.
    pub open spec fn stored(
        pre: PreviewCache,
        post: PreviewCache,
        path: Seq<char>,
        preview: Seq<char>,
    ) -> bool {
        &&& post.capacity == pre.capacity
        &&& pre.holds(path) ==> {
            &&& post.slots@.len() == pre.slots@.len()
            &&& forall|i: int|
                0 <= i < pre.slots@.len() ==> if pre.slots@[i].0@ == path {
                    (#[trigger] post.slots@[i]).0@ == path && post.slots@[i].1@ == preview
                } else {
                    post.slots@[i] == pre.slots@[i]
                }
        }
        &&& !pre.holds(path) && pre.slots@.len() < pre.capacity ==> {
            &&& post.slots@.len() == pre.slots@.len() + 1
            &&& post.slots@.drop_last() == pre.slots@
            &&& post.slots@.last().0@ == path
            &&& post.slots@.last().1@ == preview
        }
        &&& !pre.holds(path) && pre.slots@.len() == pre.capacity && pre.capacity > 0 ==> {
            &&& post.slots@.len() == pre.capacity
            &&& post.slots@.drop_last() == pre.slots@.drop_first()
            &&& post.slots@.last().0@ == path
            &&& post.slots@.last().1@ == preview
        }
        &&& pre.capacity == 0 ==> post.slots@.len() == 0
    }

    /// Stores a preview. A path that is cached keeps its place and gets the
    /// new text. A new path goes to the back, and where that exceeds the
    /// capacity, the oldest slot leaves.
    pub fn insert(&mut self, path: String, preview: String)
        requires
            old(self).wf(),
        ensures
            final(self).wf(),
            Self::stored(*old(self), *final(self), path@, preview@),
            old(self).capacity > 0 ==> final(self).lookup(path@) == Some(preview@),
    {
        proof {
            lemma_slot_of(self.slots@, path@);
        }
        match self.find(&path) {
            Some(i) => {
                let ghost before = self.slots@;
                self.slots.set(i, (path, preview));
                proof {
                    lemma_slot_of(self.slots@, path@);
                    assert(forall|j: int|
                        0 <= j < before.len() ==> self.slots@[j].0@ == before[j].0@);
                    if slot_of(self.slots@, path@) != Some(i as int) {
                        let k = slot_of(self.slots@, path@)->Some_0;
                        assert(before[k].0@ == path@);
                    }
                    assert forall|j: int| 0 <= j < before.len() && before[j].0@ == path@ implies j
                        == i by {
                        if j != i {
                            assert(before[j].0@ != before[i as int].0@);
                        }
                    }
                }
            },
            None => {
                let ghost before = self.slots@;
                self.slots.push((path, preview));
                if self.slots.len() > self.capacity {
                    let _ = self.slots.remove(0);
                    proof {
                        if self.capacity > 0 {
                            assert(self.slots@.drop_last() =~= before.drop_first());
                        }
                    }
                } else {
                    assert(self.slots@.drop_last() =~= before);
                }
                proof {
                    lemma_slot_of(self.slots@, path@);
                }
            },
        }
    }
}

} // verus!
