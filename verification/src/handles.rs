//! One handle per instance.
//!
//! A guest may key a table by an instance, so it has to get the same handle every time. A handle
//! lives as long as its instance.

use crate::dom::Dom;
use crate::numbered::Numbered;
use crate::tree::DomView;
use vstd::prelude::*;

verus! {

/// The handles that a guest's machine has made, by the numbers of their instances.
#[derive(Debug)]
pub struct Handles {
    table: Numbered<u64>,
}

impl View for Handles {
    type V = Map<usize, u64>;

    closed spec fn view(&self) -> Map<usize, u64> {
        self.table@
    }
}

/// A handle, where there is one.
pub open spec fn handle_in(m: Map<usize, u64>, id: usize) -> Option<u64> {
    if m.contains_key(id) {
        Some(m[id])
    } else {
        None
    }
}

/// The handles without those of what is gone.
pub open spec fn outliving(m: Map<usize, u64>, gone: Set<usize>) -> Map<usize, u64> {
    m.remove_keys(gone)
}

impl Handles {
    pub fn new() -> (r: Handles)
        ensures
            r@ == Map::<usize, u64>::empty(),
    {
        Handles { table: Numbered::new() }
    }

    /// Forget the handles of what was destroyed, and answer which they were.
    pub fn prune(&mut self, dom: &mut Dom) -> (r: Vec<u64>)
        requires
            old(dom).ok(),
        ensures
            final(dom).ok(),
            final(dom)@ == (DomView { released: Set::empty(), ..old(dom)@ }),
            final(self)@ == outliving(old(self)@, old(dom)@.released),
            forall|h: u64| #[trigger]
                r@.contains(h) <==> exists|id: usize|
                    old(dom)@.released.contains(id) && #[trigger] handle_in(old(self)@, id) == Some(
                        h,
                    ),
    {
        let ghost was = self@;
        let gone = dom.take_released();
        let mut r: Vec<u64> = Vec::new();
        let mut i: usize = 0;
        assert(was.remove_keys(gone@.take(0).to_set()) =~= was);
        while i < gone.len()
            invariant
                i <= gone.len(),
                self@ == was.remove_keys(gone@.take(i as int).to_set()),
                forall|h: u64| #[trigger]
                    r@.contains(h) <==> exists|k: int|
                        0 <= k < i && handle_in(was, #[trigger] gone@[k]) == Some(h),
            decreases gone.len() - i,
        {
            let ghost before = gone@.take(i as int);
            let ghost after = gone@.take(i + 1);
            let ghost x = gone@[i as int];
            let ghost found = r@;
            let ghost seen = self@;
            if let Some(h) = self.table.get(gone[i]) {
                r.push(h);
            }
            self.table.remove(gone[i]);
            proof {
                assert(after =~= before.push(x));
                assert(after.to_set() =~= before.to_set().insert(x)) by {
                    assert forall|y: usize| after.to_set().contains(y)
                        <==> before.to_set().insert(x).contains(y) by {
                        if after.contains(y) {
                            let k = choose|k: int| 0 <= k < after.len() && after[k] == y;
                            if k < i {
                                assert(before[k] == y);
                            }
                        }
                        if before.contains(y) {
                            let k = choose|k: int| 0 <= k < before.len() && before[k] == y;
                            assert(after[k] == y);
                        }
                        assert(after[i as int] == x);
                    }
                }
                assert(self@ =~= was.remove_keys(after.to_set()));
                assert forall|h: u64| #[trigger] r@.contains(h) <==> exists|k: int|
                    0 <= k < i + 1 && handle_in(was, #[trigger] gone@[k]) == Some(h) by {
                    if r@.contains(h) {
                        let m = choose|m: int| 0 <= m < r@.len() && r@[m] == h;
                        if m < found.len() {
                            assert(found[m] == h);
                            assert(found.contains(h));
                        } else {
                            assert(handle_in(was, gone@[i as int]) == Some(h));
                        }
                    }
                    if exists|k: int| 0 <= k < i + 1 && handle_in(was, #[trigger] gone@[k]) == Some(
                        h,
                    ) {
                        let k = choose|k: int|
                            0 <= k < i + 1 && handle_in(was, #[trigger] gone@[k]) == Some(h);
                        if k < i {
                            assert(found.contains(h));
                            let m = choose|m: int| 0 <= m < found.len() && found[m] == h;
                            assert(r@[m] == h);
                        } else if before.contains(x) {
                            let k2 = choose|k2: int| 0 <= k2 < before.len() && before[k2] == x;
                            assert(gone@[k2] == x);
                            assert(found.contains(h));
                            let m = choose|m: int| 0 <= m < found.len() && found[m] == h;
                            assert(r@[m] == h);
                        } else {
                            assert(seen.contains_key(x));
                            assert(r@[found.len() as int] == h);
                        }
                    }
                }
            }
            i += 1;
        }
        proof {
            assert(gone@.take(i as int) =~= gone@);
            assert forall|h: u64| #[trigger] r@.contains(h) <==> exists|id: usize|
                gone@.to_set().contains(id) && #[trigger] handle_in(was, id) == Some(h) by {
                if r@.contains(h) {
                    let k = choose|k: int|
                        0 <= k < i && handle_in(was, #[trigger] gone@[k]) == Some(h);
                    assert(gone@.contains(gone@[k]));
                    assert(handle_in(was, gone@[k]) == Some(h));
                }
                if exists|id: usize|
                    gone@.to_set().contains(id) && #[trigger] handle_in(was, id) == Some(h) {
                    let id = choose|id: usize|
                        gone@.to_set().contains(id) && #[trigger] handle_in(was, id) == Some(h);
                    let k = choose|k: int| 0 <= k < gone@.len() && gone@[k] == id;
                    assert(handle_in(was, gone@[k]) == Some(h));
                }
            }
        }
        r
    }

    /// The handle of an instance, where one was made.
    pub fn look(&self, id: usize) -> (r: Option<u64>)
        ensures
            r == handle_in(self@, id),
    {
        self.table.get(id)
    }

    /// Note the handle that was made for an instance.
    pub fn remember(&mut self, id: usize, handle: u64)
        ensures
            final(self)@ == old(self)@.insert(id, handle),
    {
        self.table.insert(id, handle);
    }
}

// ---- laws ----

/// An instance keeps its handle for as long as it lives, whatever else is destroyed.
pub proof fn a_handle_lasts(m: Map<usize, u64>, gone: Set<usize>, id: usize, handle: u64)
    requires
        handle_in(m, id) == Some(handle),
        !gone.contains(id),
    ensures
        handle_in(outliving(m, gone), id) == Some(handle),
{
}

/// A handle that was made is the one that is found from then on.
pub proof fn a_handle_is_found_again(m: Map<usize, u64>, id: usize, handle: u64)
    ensures
        handle_in(m.insert(id, handle), id) == Some(handle),
        forall|other: usize|
            other != id ==> #[trigger] handle_in(m.insert(id, handle), other) == handle_in(
                m,
                other,
            ),
{
}

/// What was destroyed has no handle.
pub proof fn the_gone_have_no_handle(m: Map<usize, u64>, gone: Set<usize>, id: usize)
    requires
        gone.contains(id),
    ensures
        handle_in(outliving(m, gone), id) is None,
{
}

} // verus!
