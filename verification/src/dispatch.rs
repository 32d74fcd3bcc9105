//! Front-end worker selection: the slot list, round-robin over it with a
//! single shared cursor, and slot removal when a worker exits. Selection
//! over a fixed list is balanced: over any run, no worker is picked more
//! than once beyond its equal share.

use vstd::prelude::*;
use vstd::arithmetic::div_mod::{lemma_fundamental_div_mod, lemma_fundamental_div_mod_converse};
use crate::errors::DispatchError;

verus! {

/// The slot list and the shared round-robin cursor. A slot is a worker's
/// socket path.
pub struct WorkerPool {
    pub slots: Vec<String>,
    pub cursor: usize,
}

impl WorkerPool {
    pub fn new() -> (r: WorkerPool)
        ensures
            r.slots@ == Seq::<String>::empty(),
            r.cursor == 0,
    {
        let r = WorkerPool { slots: Vec::new(), cursor: 0 };
        proof {
            assert(r.slots@ =~= Seq::<String>::empty());
        }
        r
    }

    /// Registers a live worker's socket path at the end of the list.
    pub fn add_slot(&mut self, path: String)
        ensures
            final(self).slots@ == old(self).slots@.push(path),
            final(self).cursor == old(self).cursor,
    {
        self.slots.push(path);
    }

    /// Removes the first slot whose path equals `path`, as the front-end
    /// does when that worker exits. Returns whether one was found; the
    /// cursor is left alone.
    pub fn remove_slot(&mut self, path: &String) -> (found: bool)
        ensures
            found == (exists|i: int|
                0 <= i < old(self).slots@.len() && old(self).slots@[i]@ == path@),
            !found ==> final(self).slots@ == old(self).slots@,
            found ==> (exists|i: int|
                {
                    &&& 0 <= i < old(self).slots@.len()
                    &&& old(self).slots@[i]@ == path@
                    &&& (forall|j: int| 0 <= j < i ==> old(self).slots@[j]@ != path@)
                    &&& final(self).slots@ == old(self).slots@.remove(i)
                }),
            final(self).cursor == old(self).cursor,
    {
        let mut i: usize = 0;
        while i < self.slots.len()
            invariant
                0 <= i <= self.slots@.len(),
                self.slots@ == old(self).slots@,
                self.cursor == old(self).cursor,
                forall|j: int| 0 <= j < i ==> self.slots@[j]@ != path@,
            decreases self.slots@.len() - i,
        {
            if self.slots[i].eq(path) {
                let ghost w = i as int;
                self.slots.remove(i);
                proof {
                    assert(0 <= w < old(self).slots@.len() && old(self).slots@[w]@ == path@ && (
                    forall|j: int| 0 <= j < w ==> old(self).slots@[j]@ != path@) && self.slots@
                        == old(self).slots@.remove(w));
                }
                return true;
            }
            i += 1;
        }
        false
    }

    /// Selects the next worker by round-robin: the slot under the cursor
    /// (wrapped to the front if the list shrank below it), advancing the
    /// cursor by one modulo the list length. With no slots left the
    /// selection fails with `NoWorker` and nothing changes.
    pub fn round_robin(&mut self) -> (r: Result<String, DispatchError>)
        ensures
            old(self).slots@.len() == 0 ==> r == Err::<String, DispatchError>(
                DispatchError::NoWorker,
            ) && *final(self) == *old(self),
            old(self).slots@.len() > 0 ==> {
                let sel = if old(self).cursor < old(self).slots@.len() {
                    old(self).cursor as int
                } else {
                    0
                };
                &&& (r matches Ok(path) && path@ == old(self).slots@[sel]@)
                &&& final(self).slots@ == old(self).slots@
                &&& final(self).cursor == (sel + 1) % (old(self).slots@.len() as int)
            },
    {
        if self.slots.len() == 0 {
            return Err(DispatchError::NoWorker);
        }
        let sel: usize = if self.cursor < self.slots.len() {
            self.cursor
        } else {
            0
        };
        let chosen = self.slots[sel].clone();
        let next = sel + 1;
        self.cursor = if next >= self.slots.len() {
            0
        } else {
            next
        };
        proof {
            let len = self.slots@.len() as int;
            if sel + 1 >= len {
                assert(sel + 1 == len);
                lemma_fundamental_div_mod_converse(sel as int + 1, len, 1, 0);
            } else {
                lemma_fundamental_div_mod_converse(sel as int + 1, len, 0, sel as int + 1);
            }
        }
        Ok(chosen)
    }
}

/// How many of the first `n` round-robin selections over `k` fixed slots
/// fall on slot `i`: selection `j` falls on slot `j % k`.
pub open spec fn count_hits(n: nat, k: nat, i: nat) -> nat
    decreases n,
{
    if n == 0 {
        0
    } else {
        count_hits((n - 1) as nat, k, i) + (if (n - 1) as nat % k == i {
            1nat
        } else {
            0nat
        })
    }
}

/// Round-robin over a fixed list is balanced: over `n` selections each of
/// `k` slots is picked either `n / k` times or one more, the extra going
/// exactly to the first `n % k` slots; when `k` divides `n` every slot is
/// picked the same `n / k` times.
pub proof fn lemma_round_robin_balanced(n: nat, k: nat, i: nat)
    requires
        k > 0,
        i < k,
    ensures
        count_hits(n, k, i) == n / k + (if i < n % k {
            1nat
        } else {
            0nat
        }),
        n / k <= count_hits(n, k, i) <= n / k + 1,
        n % k == 0 ==> count_hits(n, k, i) == n / k,
    decreases n,
{
    if n == 0 {
    } else {
        let m = (n - 1) as nat;
        lemma_round_robin_balanced(m, k, i);
        lemma_fundamental_div_mod(m as int, k as int);
        let q = m as int / k as int;
        let r = m as int % k as int;
        assert(m % k == r);
        assert(m / k == q);
        assert(q * (k as int) == (k as int) * q) by (nonlinear_arith);
        if r == k - 1 {
            assert((q + 1) * (k as int) == q * (k as int) + (k as int)) by (nonlinear_arith);
            lemma_fundamental_div_mod_converse(n as int, k as int, q + 1, 0);
            assert(n / k == q + 1);
            assert(n % k == 0);
            assert(count_hits(n, k, i) == count_hits(m, k, i) + (if m % k == i {
                1nat
            } else {
                0nat
            }));
            assert(count_hits(m, k, i) == q + (if i < r {
                1nat
            } else {
                0nat
            }));
            assert(count_hits(n, k, i) == q + 1);
        } else {
            lemma_fundamental_div_mod_converse(n as int, k as int, q, r + 1);
            assert(n / k == q);
            assert(n % k == r + 1);
            assert(count_hits(n, k, i) == count_hits(m, k, i) + (if m % k == i {
                1nat
            } else {
                0nat
            }));
        }
    }
}

} // verus!
