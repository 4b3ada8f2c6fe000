//! Memory region allocator: manages pools of executable slots inside the
//! modeled code space, each reachable from a hook site by a 32-bit relative
//! branch. Regions are carved lazily off the end of the code space, below a
//! caller-chosen capacity, and split into fixed-size trampoline slots that
//! are handed out and returned through a free list.

use vstd::prelude::*;

use crate::CODE_MAX;
use crate::DetourError;

verus! {

/// Size in bytes of one trampoline slot. Generous enough for the longest
/// trampoline the builder can produce (see `trampoline`).
pub const SLOT_SIZE: usize = 80;

/// Number of slots carved from one freshly mapped region.
pub const SLOTS_PER_REGION: usize = 8;

/// Size in bytes of one region.
pub const REGION_SIZE: usize = SLOT_SIZE * SLOTS_PER_REGION;

/// The farthest a 32-bit relative branch may reach in the model. A slot is
/// handed out only when every byte of it lies within this distance of the
/// hook site it serves.
pub const BRANCH_RANGE: usize = 0x0800_0000;

/// The slot allocator. `slot_base[k]` is the address of slot `k`;
/// `slot_used[k]` says whether it is handed out. Slots are appended in
/// address order, a region's worth at a time.
pub struct Allocator {
    /// Addresses below this belong to the program image and are never
    /// handed out as slots.
    pub program_len: usize,
    /// The code space may not grow past this; mapping a region that would
    /// is refused.
    pub cap: usize,
    pub slot_base: Vec<usize>,
    pub slot_used: Vec<bool>,
}

/// Every byte of the slot at `base` is within branch range of `near`.
pub open spec fn spec_reachable(base: int, near: int) -> bool {
    near <= base + BRANCH_RANGE && base + SLOT_SIZE <= near + BRANCH_RANGE
}

impl Allocator {
    /// Well-formedness against the current code-space length: slots are
    /// whole, disjoint, in address order, above the program image and below
    /// the end of the space.
    pub open spec fn wf(self, mem_len: int) -> bool {
        &&& self.slot_base.len() == self.slot_used.len()
        &&& self.cap <= CODE_MAX
        &&& self.program_len <= mem_len <= self.cap
        &&& forall|k: int|
            0 <= k < self.slot_base.len() ==> self.program_len <= #[trigger] self.slot_base[k]
                && self.slot_base[k] + SLOT_SIZE <= mem_len
        &&& forall|k1: int, k2: int|
            0 <= k1 < k2 < self.slot_base.len() ==> #[trigger] self.slot_base[k1] + SLOT_SIZE
                <= #[trigger] self.slot_base[k2] || self.slot_base[k2] + SLOT_SIZE
                <= self.slot_base[k1]
    }

    /// Two distinct used slots never overlap.
    pub proof fn lemma_used_slots_separated(self, mem_len: int, a1: int, a2: int)
        requires
            self.wf(mem_len),
            self.slot_used_at(a1),
            self.slot_used_at(a2),
            a1 != a2,
        ensures
            a1 + SLOT_SIZE <= a2 || a2 + SLOT_SIZE <= a1,
    {
        let k1 = choose|k: int|
            0 <= k < self.slot_base.len() && #[trigger] self.slot_base[k] == a1
                && self.slot_used[k];
        let k2 = choose|k: int|
            0 <= k < self.slot_base.len() && #[trigger] self.slot_base[k] == a2
                && self.slot_used[k];
        assert(k1 != k2);
    }

    /// Whether the slot at address `a` is currently handed out.
    pub open spec fn slot_used_at(self, a: int) -> bool {
        exists|k: int|
            0 <= k < self.slot_base.len() && #[trigger] self.slot_base[k] == a && self.slot_used[k]
    }

    /// No free slot already carved is reachable from `near`.
    pub open spec fn no_free_reachable(self, near: int) -> bool {
        forall|k: int|
            0 <= k < self.slot_base.len() ==> #[trigger] self.slot_used[k] || !spec_reachable(
                self.slot_base[k] as int,
                near,
            )
    }

    /// Mapping one more region off the end of the space would pass the
    /// capacity, or its first slot would be out of branch range of `near`.
    pub open spec fn cannot_map_region(self, mem_len: int, near: int) -> bool {
        mem_len + REGION_SIZE > self.cap || !spec_reachable(mem_len, near)
    }

    /// A fresh allocator over a program image of `program_len` bytes, with
    /// the code space allowed to grow to `cap`.
    pub fn new(program_len: usize, cap: usize) -> (r: Allocator)
        requires
            program_len <= cap <= CODE_MAX,
        ensures
            r.wf(program_len as int),
            r.program_len == program_len,
            r.cap == cap,
            r.slot_base@.len() == 0,
    {
        Allocator { program_len, cap, slot_base: Vec::new(), slot_used: Vec::new() }
    }

    /// Returns an executable slot within branch range of `near`, reusing a
    /// free slot when one is reachable and otherwise mapping a new region
    /// off the end of the code space. Fails with `AllocationFailure` when
    /// no region can be mapped within reachable distance under the
    /// capacity.
    #[verifier::rlimit(50)]
    pub fn acquire(&mut self, mem: &mut Vec<u8>, near: usize) -> (r: Result<usize, DetourError>)
        requires
            old(self).wf(old(mem)@.len() as int),
        ensures
            final(self).wf(final(mem)@.len() as int),
            final(self).program_len == old(self).program_len,
            final(self).cap == old(self).cap,
            final(mem)@.len() >= old(mem)@.len(),
            final(mem)@.subrange(0, old(mem)@.len() as int) == old(mem)@,
            match r {
                Ok(slot) => {
                    &&& old(self).program_len <= slot
                    &&& slot + SLOT_SIZE <= final(mem)@.len()
                    &&& spec_reachable(slot as int, near as int)
                    &&& !old(self).slot_used_at(slot as int)
                    &&& final(self).slot_used_at(slot as int)
                    &&& forall|a: int|
                        a != slot ==> final(self).slot_used_at(a) == old(self).slot_used_at(a)
                    &&& !(old(self).no_free_reachable(near as int) && old(self).cannot_map_region(
                        old(mem)@.len() as int,
                        near as int,
                    ))
                },
                Err(e) => {
                    &&& e == DetourError::AllocationFailure
                    &&& final(mem)@ == old(mem)@
                    &&& *final(self) == *old(self)
                    &&& old(self).no_free_reachable(near as int)
                    &&& old(self).cannot_map_region(old(mem)@.len() as int, near as int)
                },
            },
    {
        let n = self.slot_base.len();
        let mut k: usize = 0;
        while k < n
            invariant
                n == self.slot_base.len(),
                *self == *old(self),
                mem@ == old(mem)@,
                self.wf(mem@.len() as int),
                forall|j: int|
                    0 <= j < k ==> #[trigger] self.slot_used[j] || !spec_reachable(
                        self.slot_base[j] as int,
                        near as int,
                    ),
            decreases n - k,
        {
            let base = self.slot_base[k];
            if !self.slot_used[k] && near <= base + BRANCH_RANGE && base + SLOT_SIZE <= near
                + BRANCH_RANGE {
                self.slot_used.set(k, true);
                proof {
                    assert(self.slot_base[k as int] == base && self.slot_used[k as int]);
                    assert(self.slot_used_at(base as int));
                    assert forall|a: int| a != base implies self.slot_used_at(a) == old(
                        self,
                    ).slot_used_at(a) by {
                        if old(self).slot_used_at(a) {
                            let j = choose|j: int|
                                0 <= j < old(self).slot_base.len() && #[trigger] old(
                                    self,
                                ).slot_base[j] == a && old(self).slot_used[j];
                            assert(j != k);
                            assert(self.slot_base[j] == a && self.slot_used[j]);
                        }
                        if self.slot_used_at(a) {
                            let j = choose|j: int|
                                0 <= j < self.slot_base.len() && #[trigger] self.slot_base[j] == a
                                    && self.slot_used[j];
                            assert(j != k);
                            assert(old(self).slot_base[j] == a && old(self).slot_used[j]);
                        }
                    }
                    assert(mem@.subrange(0, old(mem)@.len() as int) =~= old(mem)@);
                }
                return Ok(base);
            }
            k = k + 1;
        }
        proof {
            assert(mem@.subrange(0, old(mem)@.len() as int) =~= old(mem)@);
        }
        // No reusable slot: map a new region at the end of the space.
        let new_base = mem.len();
        if new_base + REGION_SIZE > self.cap {
            return Err(DetourError::AllocationFailure);
        }
        if !(near <= new_base + BRANCH_RANGE && new_base + SLOT_SIZE <= near + BRANCH_RANGE) {
            return Err(DetourError::AllocationFailure);
        }
        let mut i: usize = 0;
        while i < REGION_SIZE
            invariant
                *self == *old(self),
                mem@.len() == new_base + i,
                i <= REGION_SIZE,
                new_base + REGION_SIZE <= self.cap,
                mem@.subrange(0, new_base as int) == old(mem)@,
            decreases REGION_SIZE - i,
        {
            mem.push(0u8);
            proof {
                assert(mem@.subrange(0, new_base as int) =~= old(mem)@);
            }
            i = i + 1;
        }
        let mut j: usize = 0;
        while j < SLOTS_PER_REGION
            invariant
                self.slot_base.len() == self.slot_used.len(),
                self.slot_base@.len() == n + j,
                j <= SLOTS_PER_REGION,
                self.program_len == old(self).program_len,
                self.cap == old(self).cap,
                self.cap <= CODE_MAX,
                mem@.len() == new_base + REGION_SIZE,
                new_base + REGION_SIZE <= self.cap,
                mem@.subrange(0, new_base as int) == old(mem)@,
                forall|t: int|
                    0 <= t < n ==> self.slot_base[t] == old(self).slot_base[t]
                        && self.slot_used[t] == old(self).slot_used[t],
                forall|t: int|
                    n <= t < n + j ==> #[trigger] self.slot_base[t] == new_base + (t - n)
                        * SLOT_SIZE && self.slot_used[t] == (t == n),
                forall|t: int|
                    0 <= t < n ==> self.program_len <= #[trigger] self.slot_base[t]
                        && self.slot_base[t] + SLOT_SIZE <= new_base,
                self.program_len <= new_base,
            decreases SLOTS_PER_REGION - j,
        {
            proof {
                assert(j * SLOT_SIZE + SLOT_SIZE <= REGION_SIZE) by (nonlinear_arith)
                    requires
                        0 <= j < SLOTS_PER_REGION,
                        SLOT_SIZE == 80,
                        SLOTS_PER_REGION == 8,
                        REGION_SIZE == 640,
                ;
            }
            self.slot_base.push(new_base + j * SLOT_SIZE);
            self.slot_used.push(j == 0);
            j = j + 1;
        }
        proof {
            assert(self.slot_base@.len() == n + SLOTS_PER_REGION);
            assert(self.slot_base[n as int] == new_base + (n - n) * SLOT_SIZE);
            assert(self.slot_used[n as int]);
            assert(self.slot_used_at(new_base as int)) by {
                assert(self.slot_base[n as int] == new_base && self.slot_used[n as int]);
            }
            assert forall|k1: int, k2: int|
                0 <= k1 < k2 < self.slot_base@.len() implies self.slot_base[k1] + SLOT_SIZE
                <= self.slot_base[k2] || self.slot_base[k2] + SLOT_SIZE <= self.slot_base[k1] by {
                if k2 < n {
                    assert(old(self).slot_base[k1] + SLOT_SIZE <= old(self).slot_base[k2] || old(
                        self,
                    ).slot_base[k2] + SLOT_SIZE <= old(self).slot_base[k1]);
                } else if k1 < n {
                    assert(self.slot_base[k1] + SLOT_SIZE <= new_base);
                    assert(self.slot_base[k2] == new_base + (k2 - n) * SLOT_SIZE);
                    assert((k2 - n) * SLOT_SIZE >= 0) by (nonlinear_arith)
                        requires
                            k2 >= n,
                            SLOT_SIZE == 80,
                    ;
                } else {
                    assert(self.slot_base[k1] == new_base + (k1 - n) * SLOT_SIZE);
                    assert(self.slot_base[k2] == new_base + (k2 - n) * SLOT_SIZE);
                    assert((k1 - n) * SLOT_SIZE + SLOT_SIZE <= (k2 - n) * SLOT_SIZE)
                        by (nonlinear_arith)
                        requires
                            n <= k1 < k2,
                            SLOT_SIZE == 80,
                    ;
                }
            }
            assert forall|a: int| a != new_base implies self.slot_used_at(a) == old(
                self,
            ).slot_used_at(a) by {
                if old(self).slot_used_at(a) {
                    let t = choose|t: int|
                        0 <= t < old(self).slot_base.len() && #[trigger] old(self).slot_base[t] == a
                            && old(self).slot_used[t];
                    assert(self.slot_base[t] == a && self.slot_used[t]);
                }
                if self.slot_used_at(a) {
                    let t = choose|t: int|
                        0 <= t < self.slot_base.len() && #[trigger] self.slot_base[t] == a
                            && self.slot_used[t];
                    assert(t < n || t == n);
                    if t < n {
                        assert(old(self).slot_base[t] == a && old(self).slot_used[t]);
                    }
                }
            }
            assert(mem@.subrange(0, old(mem)@.len() as int) == old(mem)@);
        }
        Ok(new_base)
    }

    /// Returns the slot at `slot` to its region's free list. Addresses that
    /// name no slot are ignored.
    pub fn release(&mut self, slot: usize)
        requires
            old(self).slot_base@.len() == old(self).slot_used@.len(),
        ensures
            final(self).slot_base@ == old(self).slot_base@,
            final(self).program_len == old(self).program_len,
            final(self).cap == old(self).cap,
            !final(self).slot_used_at(slot as int),
            forall|a: int|
                a != slot ==> final(self).slot_used_at(a) == old(self).slot_used_at(a),
            final(self).slot_used@.len() == old(self).slot_used@.len(),
    {
        let n = self.slot_base.len();
        let mut k: usize = 0;
        while k < n
            invariant
                n == self.slot_base.len(),
                n == self.slot_used.len(),
                self.slot_base@ == old(self).slot_base@,
                self.program_len == old(self).program_len,
                self.cap == old(self).cap,
                self.slot_used@.len() == old(self).slot_used@.len(),
                forall|t: int|
                    0 <= t < n && old(self).slot_base[t] != slot
                        ==> #[trigger] self.slot_used[t] == old(self).slot_used[t],
                forall|t: int|
                    0 <= t < k && old(self).slot_base[t] == slot ==> !(
                    #[trigger] self.slot_used[t]),
            decreases n - k,
        {
            if self.slot_base[k] == slot {
                self.slot_used.set(k, false);
            }
            k = k + 1;
        }
        proof {
            if self.slot_used_at(slot as int) {
                let t = choose|t: int|
                    0 <= t < self.slot_base.len() && #[trigger] self.slot_base[t] == slot
                        && self.slot_used[t];
                assert(old(self).slot_base[t] == slot);
                assert(!self.slot_used[t]);
            }
            assert forall|a: int| a != slot implies self.slot_used_at(a) == old(self).slot_used_at(
                a,
            ) by {
                if old(self).slot_used_at(a) {
                    let t = choose|t: int|
                        0 <= t < old(self).slot_base.len() && #[trigger] old(self).slot_base[t] == a
                            && old(self).slot_used[t];
                    assert(self.slot_base[t] == a && self.slot_used[t]);
                }
                if self.slot_used_at(a) {
                    let t = choose|t: int|
                        0 <= t < self.slot_base.len() && #[trigger] self.slot_base[t] == a
                            && self.slot_used[t];
                    assert(old(self).slot_base[t] == a && old(self).slot_used[t]);
                }
            }
        }
    }
}

} // verus!
