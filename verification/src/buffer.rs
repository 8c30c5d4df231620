//! The buffer of pending operations, one entry per path.

use vstd::prelude::*;
use crate::event::PathView;
use crate::event::opt_path_view;
use crate::model::PendingView;
use crate::op::Dominant;

verus! {

/// The coalesced operation queued for one path.
#[derive(Debug)]
pub struct Pending {
    /// The operation that is released when the timer fires.
    pub dominant: Dominant,
    /// The path the file had before the renames that led here.
    pub rename_from: Option<String>,
    /// The timer armed for this entry.
    pub timer_id: u64,
}

impl View for Pending {
    type V = PendingView;

    open spec fn view(&self) -> PendingView {
        PendingView {
            dominant: self.dominant,
            rename_from: opt_path_view(self.rename_from),
            timer_id: self.timer_id as nat,
        }
    }
}

/// A copy of a path.
pub fn clone_path(path: &String) -> (r: String)
    ensures
        r@ == path@,
{
    path.clone()
}

/// A copy of an optional path.
pub fn clone_opt_path(path: &Option<String>) -> (r: Option<String>)
    ensures
        opt_path_view(r) == opt_path_view(*path),
{
    match path {
        Some(p) => Some(clone_path(p)),
        None => None,
    }
}

struct Slot {
    path: String,
    pending: Pending,
}

/// A map from paths to pending operations.
pub struct OperationsBuffer {
    slots: Vec<Slot>,
}

impl OperationsBuffer {
    /// No path stands in two slots.
    pub closed spec fn wf(&self) -> bool {
        forall|i: int, j: int|
            0 <= i < j < self.slots.len() ==> (#[trigger] self.slots[i]).path@ != (
            #[trigger] self.slots[j]).path@
    }

    spec fn holds(&self, path: PathView) -> bool {
        exists|i: int| 0 <= i < self.slots.len() && (#[trigger] self.slots[i]).path@ == path
    }

    spec fn slot_of(&self, path: PathView) -> int {
        choose|i: int| 0 <= i < self.slots.len() && (#[trigger] self.slots[i]).path@ == path
    }

    /// The buffer as a map.
    pub closed spec fn view(&self) -> Map<PathView, PendingView> {
        Map::new(|p: PathView| self.holds(p), |p: PathView| self.slots[self.slot_of(p)].pending@)
    }

    proof fn lemma_slot(&self, i: int)
        requires
            self.wf(),
            0 <= i < self.slots.len(),
        ensures
            self@.contains_key(self.slots[i].path@),
            self@[self.slots[i].path@] == self.slots[i].pending@,
            self.slot_of(self.slots[i].path@) == i,
    {
        let p = self.slots[i].path@;
        assert(self.holds(p));
        let k = self.slot_of(p);
        assert(0 <= k < self.slots.len() && self.slots[k].path@ == p);
        if k < i {
            assert(self.slots[k].path@ != self.slots[i].path@);
        } else if i < k {
            assert(self.slots[i].path@ != self.slots[k].path@);
        }
    }

    /// An empty buffer.
    pub fn new() -> (r: OperationsBuffer)
        ensures
            r.wf(),
            r@ == Map::<PathView, PendingView>::empty(),
    {
        let r = OperationsBuffer { slots: Vec::new() };
        assert(r@ =~= Map::<PathView, PendingView>::empty());
        r
    }

    fn position(&self, path: &String) -> (r: Option<usize>)
        requires
            self.wf(),
        ensures
            match r {
                Some(i) => i < self.slots.len() && self.slots[i as int].path@ == path@,
                None => !self.holds(path@),
            },
    {
        let mut i: usize = 0;
        while i < self.slots.len()
            invariant
                i <= self.slots.len(),
                forall|k: int| 0 <= k < i ==> (#[trigger] self.slots[k]).path@ != path@,
            decreases self.slots.len() - i,
        {
            if self.slots[i].path == *path {
                return Some(i);
            }
            i += 1;
        }
        None
    }

    spec fn paths_upto(&self, n: int) -> Set<PathView> {
        Set::new(|p: PathView| exists|i: int| 0 <= i < n && (#[trigger] self.slots[i]).path@ == p)
    }

    proof fn lemma_paths_upto(&self, n: int)
        requires
            self.wf(),
            0 <= n <= self.slots.len(),
        ensures
            self.paths_upto(n).finite(),
            self.paths_upto(n).len() == n,
        decreases n,
    {
        if n == 0 {
            assert(self.paths_upto(0) =~= Set::<PathView>::empty());
        } else {
            self.lemma_paths_upto(n - 1);
            let last = self.slots[n - 1].path@;
            if self.paths_upto(n - 1).contains(last) {
                let i = choose|i: int| 0 <= i < n - 1 && (#[trigger] self.slots[i]).path@ == last;
                assert(self.slots[i].path@ != self.slots[n - 1].path@);
            }
            assert forall|p: PathView| #[trigger]
                self.paths_upto(n).contains(p) <==> self.paths_upto(n - 1).insert(last).contains(
                    p,
                ) by {
                if self.paths_upto(n).contains(p) {
                    let i = choose|i: int| 0 <= i < n && (#[trigger] self.slots[i]).path@ == p;
                    if i < n - 1 {
                        assert(self.paths_upto(n - 1).contains(p));
                    }
                }
                if self.paths_upto(n - 1).insert(last).contains(p) {
                    if p == last {
                        assert(self.slots[n - 1].path@ == p);
                    } else {
                        let i = choose|i: int|
                            0 <= i < n - 1 && (#[trigger] self.slots[i]).path@ == p;
                        assert(self.slots[i].path@ == p);
                    }
                }
            }
            assert(self.paths_upto(n) =~= self.paths_upto(n - 1).insert(last));
        }
    }

    /// The number of entries.
    pub fn len(&self) -> (r: usize)
        requires
            self.wf(),
        ensures
            self@.dom().finite(),
            r == self@.dom().len(),
    {
        proof {
            self.lemma_paths_upto(self.slots.len() as int);
            assert(self@.dom() =~= self.paths_upto(self.slots.len() as int));
        }
        self.slots.len()
    }

    /// The entry of `path`, if it has one.
    pub fn get(&self, path: &String) -> (r: Option<&Pending>)
        requires
            self.wf(),
        ensures
            match r {
                Some(e) => self@.contains_key(path@) && e@ == self@[path@],
                None => !self@.contains_key(path@),
            },
    {
        match self.position(path) {
            Some(i) => {
                proof {
                    self.lemma_slot(i as int);
                }
                Some(&self.slots[i].pending)
            },
            None => None,
        }
    }

    /// Sets the entry of `path`, in place of the one it had, if any.
    pub fn insert(&mut self, path: String, pending: Pending)
        requires
            old(self).wf(),
        ensures
            final(self).wf(),
            final(self)@ == old(self)@.insert(path@, pending@),
    {
        let ghost before = *self;
        match self.position(&path) {
            Some(i) => {
                let ghost key = path@;
                let ghost val = pending@;
                self.slots[i] = Slot { path, pending };
                proof {
                    assert(self.wf()) by {
                        assert forall|a: int, b: int| 0 <= a < b < self.slots.len() implies (
                        #[trigger] self.slots[a]).path@ != (#[trigger] self.slots[b]).path@ by {
                            assert(before.slots[a].path@ != before.slots[b].path@);
                        }
                    }
                    assert forall|p: PathView| self.holds(p) <==> before.holds(p) || p == key by {
                        if self.holds(p) {
                            let k = self.slot_of(p);
                            assert(before.slots[k].path@ == p);
                        }
                        if before.holds(p) {
                            let k = before.slot_of(p);
                            assert(self.slots[k].path@ == p);
                        }
                        if p == key {
                            assert(self.slots[i as int].path@ == p);
                        }
                    }
                    assert forall|p: PathView| self.holds(p) implies #[trigger] self@[p]
                        == before@.insert(key, val)[p] by {
                        let k = self.slot_of(p);
                        self.lemma_slot(k);
                        assert(before.slots[k].path@ == p);
                        before.lemma_slot(k);
                    }
                    assert(self@ =~= before@.insert(key, val));
                }
            },
            None => {
                let ghost key = path@;
                let ghost val = pending@;
                self.slots.push(Slot { path, pending });
                proof {
                    let n = before.slots.len() as int;
                    assert(self.wf()) by {
                        assert forall|a: int, b: int| 0 <= a < b < self.slots.len() implies (
                        #[trigger] self.slots[a]).path@ != (#[trigger] self.slots[b]).path@ by {
                            if b < n {
                                assert(before.slots[a].path@ != before.slots[b].path@);
                            } else {
                                assert(before.slots[a].path@ != key);
                            }
                        }
                    }
                    assert forall|p: PathView| self.holds(p) <==> before.holds(p) || p == key by {
                        if self.holds(p) {
                            let k = self.slot_of(p);
                            if k < n {
                                assert(before.slots[k].path@ == p);
                            }
                        }
                        if before.holds(p) {
                            let k = before.slot_of(p);
                            assert(self.slots[k].path@ == p);
                        }
                        if p == key {
                            assert(self.slots[n].path@ == p);
                        }
                    }
                    assert forall|p: PathView| self.holds(p) implies #[trigger] self@[p]
                        == before@.insert(key, val)[p] by {
                        let k = self.slot_of(p);
                        self.lemma_slot(k);
                        if k < n {
                            assert(before.slots[k].path@ == p);
                            before.lemma_slot(k);
                        }
                    }
                    assert(self@ =~= before@.insert(key, val));
                }
            },
        }
    }

    /// Takes the entry of `path` out, if it has one.
    pub fn remove(&mut self, path: &String) -> (r: Option<Pending>)
        requires
            old(self).wf(),
        ensures
            final(self).wf(),
            final(self)@ == old(self)@.remove(path@),
            match r {
                Some(e) => old(self)@.contains_key(path@) && e@ == old(self)@[path@],
                None => !old(self)@.contains_key(path@),
            },
    {
        let ghost before = *self;
        match self.position(path) {
            Some(i) => {
                proof {
                    before.lemma_slot(i as int);
                }
                let slot = self.slots.remove(i);
                proof {
                    let key = path@;
                    assert forall|a: int| 0 <= a < self.slots.len() implies #[trigger] self.slots[a]
                        == before.slots[if a < i { a } else { a + 1 }] by {}
                    assert(self.wf()) by {
                        assert forall|a: int, b: int| 0 <= a < b < self.slots.len() implies (
                        #[trigger] self.slots[a]).path@ != (#[trigger] self.slots[b]).path@ by {
                            let a0 = if a < i { a } else { a + 1 };
                            let b0 = if b < i { b } else { b + 1 };
                            assert(before.slots[a0].path@ != before.slots[b0].path@);
                        }
                    }
                    assert forall|p: PathView| self.holds(p) <==> before.holds(p) && p != key by {
                        if self.holds(p) {
                            let k = self.slot_of(p);
                            let k0 = if k < i { k } else { k + 1 };
                            assert(before.slots[k0].path@ == p);
                            before.lemma_slot(k0);
                        }
                        if before.holds(p) && p != key {
                            let k = before.slot_of(p);
                            let k1 = if k < i { k } else { k - 1 };
                            assert(self.slots[k1].path@ == p);
                        }
                    }
                    assert forall|p: PathView| self.holds(p) implies #[trigger] self@[p]
                        == before@.remove(key)[p] by {
                        let k = self.slot_of(p);
                        self.lemma_slot(k);
                        let k0 = if k < i { k } else { k + 1 };
                        assert(before.slots[k0].path@ == p);
                        before.lemma_slot(k0);
                    }
                    assert(self@ =~= before@.remove(key));
                }
                Some(slot.pending)
            },
            None => {
                proof {
                    assert(self@ =~= before@.remove(path@));
                }
                None
            },
        }
    }
}

} // verus!
