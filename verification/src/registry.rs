//! The connection registry: the process-wide set of identities that have
//! successfully joined, shared by every live session. Membership is the sole
//! predicate for join acceptance, so `try_register` does the check and the
//! insert as one operation; the caller serialises access (one lock around
//! the registry), never holding it across I/O.

use vstd::prelude::*;

verus! {

/// The set of registered connection identities.
///
/// An identity is a 128-bit value: the peer's generated identifier.
pub struct ConnectionRegistry {
    ids: Vec<u128>,
}

impl View for ConnectionRegistry {
    type V = Set<u128>;

    closed spec fn view(&self) -> Set<u128> {
        self.ids@.to_set()
    }
}

impl ConnectionRegistry {
    /// Each identity is held at most once.
    pub closed spec fn wf(&self) -> bool {
        forall|i: int, j: int|
            #![trigger self.ids@[i], self.ids@[j]]
            0 <= i < j < self.ids@.len() ==> self.ids@[i] != self.ids@[j]
    }

    /// A fresh registry: nobody has joined.
    pub fn new() -> (r: ConnectionRegistry)
        ensures
            r.wf(),
            r@ == Set::<u128>::empty(),
    {
        let r = ConnectionRegistry { ids: Vec::new() };
        proof {
            assert(r@ =~= Set::<u128>::empty());
        }
        r
    }

    /// Whether `id` is registered.
    pub fn contains(&self, id: u128) -> (b: bool)
        ensures
            b == self@.contains(id),
    {
        let n = self.ids.len();
        let mut i: usize = 0;
        while i < n
            invariant
                n == self.ids@.len(),
                i <= n,
                forall|k: int| 0 <= k < i ==> self.ids@[k] != id,
            decreases n - i,
        {
            if self.ids[i] == id {
                proof {
                    assert(self.ids@.contains(id));
                }
                return true;
            }
            i += 1;
        }
        proof {
            assert(!self.ids@.contains(id));
        }
        false
    }

    /// Registers `id` unless it is already present. Returns whether it was
    /// newly inserted: the check and the insert are one operation, so of any
    /// series of attempts with one identity exactly the first succeeds.
    pub fn try_register(&mut self, id: u128) -> (fresh: bool)
        requires
            old(self).wf(),
        ensures
            final(self).wf(),
            fresh == !old(self)@.contains(id),
            final(self)@ == old(self)@.insert(id),
    {
        if self.contains(id) {
            proof {
                assert(final(self)@ =~= old(self)@.insert(id));
            }
            false
        } else {
            proof {
                assert(forall|k: int|
                    0 <= k < self.ids@.len() ==> self.ids@[k] != id) by {
                    assert(!self.ids@.contains(id));
                }
            }
            self.ids.push(id);
            proof {
                let before = old(self).ids@;
                let after = self.ids@;
                assert forall|x: u128|
                    after.to_set().contains(x) == old(self)@.insert(id).contains(x) by {
                    if after.contains(x) {
                        let k = choose|k: int| 0 <= k < after.len() && after[k] == x;
                        if k < before.len() {
                            assert(before[k] == x);
                            assert(before.contains(x));
                        } else {
                            assert(x == id);
                        }
                    }
                    if x == id {
                        assert(after[after.len() - 1] == x);
                        assert(after.contains(x));
                    }
                    if before.contains(x) {
                        let k = choose|k: int| 0 <= k < before.len() && before[k] == x;
                        assert(after[k] == x);
                        assert(after.contains(x));
                    }
                }
                assert(final(self)@ =~= old(self)@.insert(id));
            }
            true
        }
    }

    /// Removes `id`; afterwards it is no longer registered. Removing an
    /// absent identity changes nothing.
    pub fn unregister(&mut self, id: u128)
        requires
            old(self).wf(),
        ensures
            final(self).wf(),
            final(self)@ == old(self)@.remove(id),
    {
        let n = self.ids.len();
        let mut i: usize = 0;
        while i < n
            invariant
                self == old(self),
                old(self).wf(),
                n == self.ids@.len(),
                i <= n,
                forall|k: int| 0 <= k < i ==> self.ids@[k] != id,
            decreases n - i,
        {
            if self.ids[i] == id {
                self.ids.swap_remove(i);
                proof {
                    let before = old(self).ids@;
                    let after = self.ids@;
                    let ii = i as int;
                    let last = before.len() - 1;
                    assert(before[ii] == id);
                    assert(after.len() == last);
                    assert forall|p: int, q: int|
                        0 <= p < before.len() && 0 <= q < before.len() && p != q
                        implies before[p] != before[q] by {
                        if p < q {
                            assert(before[p] != before[q]);
                        } else {
                            assert(before[q] != before[p]);
                        }
                    }
                    assert(forall|k: int| 0 <= k < after.len() && k != ii
                        ==> after[k] == before[k]);
                    assert(ii < after.len() ==> after[ii] == before[last]);
                    assert forall|a: int, b: int| 0 <= a < b < after.len()
                        implies after[a] != after[b] by {
                        if a == ii {
                            assert(after[a] == before[last] && after[b] == before[b]);
                        } else if b == ii {
                            assert(after[a] == before[a] && after[b] == before[last]);
                        } else {
                            assert(after[a] == before[a] && after[b] == before[b]);
                        }
                    }
                    assert forall|x: u128|
                        after.to_set().contains(x) == old(self)@.remove(id).contains(x) by {
                        if after.contains(x) {
                            let k = choose|k: int| 0 <= k < after.len() && after[k] == x;
                            if k == ii {
                                assert(before[last] == x);
                                assert(before[ii] != before[last]);
                            } else {
                                assert(before[k] == x);
                                assert(before[ii] != before[k]);
                            }
                            assert(x != id);
                            assert(before.contains(x));
                        }
                        if before.contains(x) && x != id {
                            let k = choose|k: int| 0 <= k < before.len() && before[k] == x;
                            assert(k != ii);
                            if k == last {
                                assert(ii < last);
                                assert(after[ii] == x);
                            } else {
                                assert(after[k] == x);
                            }
                            assert(after.contains(x));
                        }
                    }
                    assert(final(self)@ =~= old(self)@.remove(id));
                }
                return ;
            }
            i += 1;
        }
        proof {
            assert(!self.ids@.contains(id));
            assert(final(self)@ =~= old(self)@.remove(id));
        }
    }
}

} // verus!
