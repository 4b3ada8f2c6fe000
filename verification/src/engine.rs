//! Transaction manager: coordinates batches of attach and detach
//! operations over the modeled code space. A transaction is begun, records
//! pending hook changes — building trampolines eagerly so failures surface
//! before anything is patched — and on commit applies every queued change
//! at once, relocating the instruction pointer of any thread caught inside
//! a patched region; on abort it discards the queue without touching any
//! target's bytes.

use vstd::prelude::*;

use crate::decoder::spec_decode;
use crate::memory::{Allocator, SLOT_SIZE};
use crate::trampoline::{build, jmp32_bytes, lemma_prologue_ok_agree, prologue_ok, Trampoline, JMP32_LEN, MAX_BRANCH_SIZE};
use crate::{CODE_MAX, DetourError};

verus! {

/// Lifecycle of one interception, driven only by the transaction manager.
#[derive(Clone, Copy, PartialEq, Eq, Structural, Debug)]
pub enum HookState {
    /// Queued inside the open transaction; becomes `Attached` on commit and
    /// disappears on abort.
    PendingAttach,
    /// The target is patched and the caller's cell routes through the
    /// detour.
    Attached,
    /// Queued for removal inside the open transaction; restored to
    /// `Attached` on abort.
    PendingDetach,
    /// Removed by a committed detach; kept only as a dead record.
    Detached,
}

/// One interception: the caller's pointer cell, the resolved target, the
/// detour, the trampoline built for it and the target's original bytes.
pub struct Hook {
    /// Index of the pointer cell the caller calls through.
    pub cell: usize,
    /// Address of the original function's first byte.
    pub target: usize,
    /// Address of the replacement function.
    pub detour: usize,
    pub state: HookState,
    /// Built eagerly when the attach is queued.
    pub trampoline: Trampoline,
    /// The target's first bytes as captured when the attach was queued;
    /// written back by a committed detach.
    pub saved: Vec<u8>,
}

/// What an outside observer can see of one hook.
pub struct HookObs {
    pub cell: usize,
    pub target: usize,
    pub detour: usize,
    pub state: HookState,
    pub saved: Seq<u8>,
    pub slot: usize,
    pub prologue_len: usize,
    pub tramp_bytes: Seq<u8>,
    pub tramp_offsets: Seq<(usize, usize)>,
}

/// What an outside observer can see of the engine: the program image's
/// bytes, every hook, and the pointer cells. Trampoline slots and the
/// allocator's bookkeeping are not part of it.
pub struct EngineObs {
    pub prog: Seq<u8>,
    pub hooks: Seq<HookObs>,
    pub cells: Seq<usize>,
}

/// One thread of the process as captured while it is frozen during
/// commit: its instruction pointer, and whether the platform let the
/// engine suspend it.
pub struct ThreadCtx {
    pub ip: usize,
    pub suspendable: bool,
}

pub open spec fn hook_obs(h: Hook) -> HookObs {
    HookObs {
        cell: h.cell,
        target: h.target,
        detour: h.detour,
        state: h.state,
        saved: h.saved@,
        slot: h.trampoline.slot,
        prologue_len: h.trampoline.prologue_len,
        tramp_bytes: h.trampoline.bytes@,
        tramp_offsets: h.trampoline.offsets@,
    }
}

/// The detour engine over one process-wide code space.
pub struct Engine {
    /// The modeled code space; addresses are indices.
    pub mem: Vec<u8>,
    pub alloc: Allocator,
    /// Pointer cells the callers own, held here as an arena so the engine
    /// can rewrite them at commit.
    pub cells: Vec<usize>,
    pub hooks: Vec<Hook>,
    /// Whether a transaction is open. Exactly one may be open at a time.
    pub tx_open: bool,
    /// Whether commit freezes the other threads. Opting out is the
    /// caller's documented trade-off for latency.
    pub suspend_threads: bool,
    /// The observable state captured when the open transaction began;
    /// abort restores it.
    pub snap: Ghost<EngineObs>,
}

impl Engine {
    /// The observable state.
    pub open spec fn obs(self) -> EngineObs {
        EngineObs {
            prog: self.mem@.subrange(0, self.alloc.program_len as int),
            hooks: self.hooks@.map_values(|h: Hook| hook_obs(h)),
            cells: self.cells@,
        }
    }

    /// Structural soundness: the allocator is sound against the space,
    /// every hook patches a whole prologue inside the program image with a
    /// slot inside the space, live hooks' ranges are pairwise disjoint,
    /// and outside a transaction no hook is pending.
    pub open spec fn wf(self) -> bool {
        &&& self.alloc.wf(self.mem@.len() as int)
        &&& self.mem@.len() <= CODE_MAX
        &&& forall|k: int|
            0 <= k < self.hooks@.len() ==> {
                let h = #[trigger] self.hooks@[k];
                &&& h.target + h.saved@.len() <= self.alloc.program_len
                &&& h.saved@.len() == h.trampoline.prologue_len
                &&& JMP32_LEN <= h.saved@.len() <= MAX_BRANCH_SIZE + 5
                &&& h.cell < self.cells@.len()
                &&& 0 < h.detour < CODE_MAX
                &&& h.trampoline.func == h.target
                &&& h.trampoline.slot + SLOT_SIZE <= self.mem@.len()
                &&& h.trampoline.bytes@.len() <= SLOT_SIZE
                &&& self.alloc.program_len <= h.trampoline.slot
                &&& (h.state == HookState::PendingAttach ==> self.cells@[h.cell as int] == h.target)
                &&& (h.state == HookState::Attached || h.state == HookState::PendingDetach
                    ==> self.cells@[h.cell as int] == h.trampoline.slot)
            }
        &&& forall|k1: int, k2: int|
            0 <= k1 < k2 < self.hooks@.len() && (#[trigger] self.hooks@[k1]).state
                != HookState::Detached && (#[trigger] self.hooks@[k2]).state != HookState::Detached
                ==> self.hooks@[k1].target + self.hooks@[k1].saved@.len()
                <= self.hooks@[k2].target || self.hooks@[k2].target
                + self.hooks@[k2].saved@.len() <= self.hooks@[k1].target
        &&& forall|k: int|
            0 <= k < self.hooks@.len() && (#[trigger] self.hooks@[k]).state != HookState::Detached
                ==> self.alloc.slot_used_at(self.hooks@[k].trampoline.slot as int)
        &&& forall|k1: int, k2: int|
            0 <= k1 < k2 < self.hooks@.len() && (#[trigger] self.hooks@[k1]).state
                != HookState::Detached && (#[trigger] self.hooks@[k2]).state != HookState::Detached
                ==> self.hooks@[k1].trampoline.slot != self.hooks@[k2].trampoline.slot
        &&& (!self.tx_open ==> forall|k: int|
            0 <= k < self.hooks@.len() ==> #[trigger] self.hooks@[k].state == HookState::Attached
                || self.hooks@[k].state == HookState::Detached)
    }

    /// While a transaction is open: the program image is as the snapshot
    /// saw it, the snapshot's hooks are a prefix of the current ones —
    /// equal but for attached hooks now queued for detach — and every hook
    /// appended since is queued for attach.
    pub open spec fn snap_rel(self) -> bool {
        let s = self.snap@;
        &&& s.prog == self.mem@.subrange(0, self.alloc.program_len as int)
        &&& s.cells == self.cells@
        &&& s.hooks.len() <= self.hooks@.len()
        &&& forall|k: int|
            0 <= k < s.hooks.len() ==> {
                let h = #[trigger] self.hooks@[k];
                let o = s.hooks[k];
                &&& o == HookObs { state: o.state, ..hook_obs(h) }
                &&& (h.state == o.state || (h.state == HookState::PendingDetach && o.state
                    == HookState::Attached))
                &&& (o.state == HookState::Attached || o.state == HookState::Detached)
            }
        &&& forall|k: int|
            s.hooks.len() <= k < self.hooks@.len() ==> #[trigger] self.hooks@[k].state
                == HookState::PendingAttach
    }

    /// The full invariant carried across the public operations.
    pub open spec fn inv(self) -> bool {
        &&& self.wf()
        &&& (self.tx_open ==> self.snap_rel())
    }

    /// A fresh engine over a program image, with the code space allowed to
    /// grow to `cap` for trampoline regions.
    pub fn new(image: Vec<u8>, cap: usize) -> (r: Engine)
        requires
            image@.len() <= cap <= CODE_MAX,
        ensures
            r.inv(),
            !r.tx_open,
            r.mem@ == image@,
            r.obs().prog == image@,
            r.obs().hooks.len() == 0,
            r.obs().cells.len() == 0,
            r.alloc.program_len == image@.len(),
            r.alloc.cap == cap,
    {
        let n = image.len();
        let e = Engine {
            mem: image,
            alloc: Allocator::new(n, cap),
            cells: Vec::new(),
            hooks: Vec::new(),
            tx_open: false,
            suspend_threads: true,
            snap: Ghost(
                EngineObs { prog: Seq::empty(), hooks: Seq::empty(), cells: Seq::empty() },
            ),
        };
        proof {
            assert(e.obs().prog =~= e.mem@);
        }
        e
    }

    /// Registers a pointer cell holding `value` and returns its handle.
    /// The caller routes its calls through the cell; the engine rewrites
    /// it when hooks on it commit.
    pub fn register_cell(&mut self, value: usize) -> (r: usize)
        requires
            old(self).inv(),
            !old(self).tx_open,
        ensures
            final(self).inv(),
            !final(self).tx_open,
            final(self).cells@ == old(self).cells@.push(value),
            r == old(self).cells@.len(),
            final(self).mem@ == old(self).mem@,
            final(self).hooks@ == old(self).hooks@,
            final(self).alloc == old(self).alloc,
    {
        let r = self.cells.len();
        self.cells.push(value);
        r
    }

    /// Opens the process-wide transaction. Fails with `AlreadyOpen` — and
    /// disturbs nothing — when one is already open; there is no nesting.
    pub fn transaction_begin(&mut self, suspend: bool) -> (r: Result<(), DetourError>)
        requires
            old(self).inv(),
        ensures
            final(self).inv(),
            old(self).tx_open ==> ({
                &&& r == Err::<(), DetourError>(DetourError::AlreadyOpen)
                &&& *final(self) == *old(self)
            }),
            !old(self).tx_open ==> ({
                &&& r == Ok::<(), DetourError>(())
                &&& final(self).tx_open
                &&& final(self).snap@ == old(self).obs()
                &&& final(self).suspend_threads == suspend
                &&& final(self).mem@ == old(self).mem@
                &&& final(self).hooks@ == old(self).hooks@
                &&& final(self).cells@ == old(self).cells@
                &&& final(self).alloc == old(self).alloc
            }),
    {
        if self.tx_open {
            return Err(DetourError::AlreadyOpen);
        }
        self.tx_open = true;
        self.suspend_threads = suspend;
        self.snap = Ghost(self.obs());
        Ok(())
    }

    /// The target and detour a queued attach needs: a registered cell, both
    /// addresses non-null, the detour inside the code space and the target
    /// low enough in the program image for the longest possible patch.
    pub open spec fn attach_params_ok(self, cell: usize, detour: usize) -> bool {
        &&& cell < self.cells@.len()
        &&& 0 < detour < CODE_MAX
        &&& 0 < self.cells@[cell as int]
        &&& self.cells@[cell as int] + MAX_BRANCH_SIZE <= self.alloc.program_len
    }

    /// No trampoline slot can serve `target`: no free carved slot is in
    /// branch range and no new region can be mapped for it.
    pub open spec fn alloc_blocked(self, target: int) -> bool {
        self.alloc.no_free_reachable(target) && self.alloc.cannot_map_region(
            self.mem@.len() as int,
            target,
        )
    }

    /// Some hook that is not permanently removed already covers bytes the
    /// patch at `target` might need.
    pub open spec fn overlaps_existing(self, target: int) -> bool {
        exists|k: int|
            0 <= k < self.hooks@.len() && (#[trigger] self.hooks@[k]).state != HookState::Detached
                && target < self.hooks@[k].target + self.hooks@[k].saved@.len()
                && self.hooks@[k].target < target + MAX_BRANCH_SIZE
    }

    /// Validates the hook's prior state and the addresses, builds its
    /// trampoline eagerly — so build failures surface before any thread is
    /// frozen — captures the bytes the patch will overwrite, and queues the
    /// attach. Nothing is patched until commit. The cell must hold the
    /// target function's address.
    #[verifier::loop_isolation(false)]
    #[verifier::rlimit(100)]
    pub fn attach(&mut self, cell: usize, detour: usize) -> (r: Result<(), DetourError>)
        requires
            old(self).inv(),
        ensures
            final(self).inv(),
            final(self).tx_open == old(self).tx_open,
            final(self).suspend_threads == old(self).suspend_threads,
            final(self).snap == old(self).snap,
            final(self).cells@ == old(self).cells@,
            final(self).alloc.program_len == old(self).alloc.program_len,
            final(self).mem@.len() >= old(self).mem@.len(),
            final(self).mem@.subrange(0, old(self).alloc.program_len as int) == old(self).mem@.subrange(0, old(self).alloc.program_len as int),
            match r {
                Ok(()) => {
                    let target = old(self).cells@[cell as int] as int;
                    let h = final(self).hooks@[final(self).hooks@.len() - 1];
                    &&& old(self).tx_open
                    &&& old(self).attach_params_ok(cell, detour)
                    &&& !old(self).overlaps_existing(target)
                    &&& !old(self).alloc_blocked(target)
                    &&& prologue_ok(old(self).mem@, target, JMP32_LEN as int)
                    &&& final(self).hooks@.len() == old(self).hooks@.len() + 1
                    &&& forall|k: int|
                        0 <= k < old(self).hooks@.len() ==> final(self).hooks@[k] == old(self).hooks@[k]
                    &&& h.cell == cell
                    &&& h.target == old(self).cells@[cell as int]
                    &&& h.detour == detour
                    &&& h.state == HookState::PendingAttach
                    &&& JMP32_LEN <= h.trampoline.prologue_len <= MAX_BRANCH_SIZE
                    &&& h.saved@ == final(self).mem@.subrange(
                        target,
                        target + h.trampoline.prologue_len,
                    )
                    &&& h.trampoline.wf(final(self).mem@)
                    &&& h.trampoline.func == h.target
                },
                Err(e) => {
                    let target = old(self).cells@[cell as int] as int;
                    &&& final(self).hooks@ == old(self).hooks@
                    &&& (e == DetourError::NotOpen || e == DetourError::InvalidParameter || e
                        == DetourError::TargetAlreadyHooked || e == DetourError::AllocationFailure
                        || e == DetourError::UnrelocatableInstruction)
                    &&& (e == DetourError::NotOpen <==> !old(self).tx_open)
                    &&& (e == DetourError::InvalidParameter <==> old(self).tx_open && !old(self).attach_params_ok(cell, detour))
                    &&& (e == DetourError::TargetAlreadyHooked <==> old(self).tx_open && old(self).attach_params_ok(cell, detour) && old(self).overlaps_existing(target))
                    &&& (e == DetourError::AllocationFailure <==> old(self).tx_open && old(self).attach_params_ok(cell, detour) && !old(self).overlaps_existing(target)
                        && old(self).alloc_blocked(target))
                    &&& (e == DetourError::UnrelocatableInstruction <==> old(self).tx_open && old(self).attach_params_ok(cell, detour) && !old(self).overlaps_existing(target)
                        && !old(self).alloc_blocked(target) && !prologue_ok(
                        old(self).mem@,
                        target,
                        JMP32_LEN as int,
                    ))
                    &&& (e == DetourError::AllocationFailure ==> final(self).mem@ == old(self).mem@
                        && final(self).alloc == old(self).alloc)
                    &&& forall|a: int|
                        final(self).alloc.slot_used_at(a) == old(self).alloc.slot_used_at(a)
                    &&& (e == DetourError::NotOpen || e == DetourError::InvalidParameter || e
                        == DetourError::TargetAlreadyHooked ==> *final(self) == *old(self))
                },
            },
    {
        if !self.tx_open {
            return Err(DetourError::NotOpen);
        }
        if !(cell < self.cells.len()) {
            return Err(DetourError::InvalidParameter);
        }
        let target = self.cells[cell];
        let pl = self.alloc.program_len;
        if !(0 < detour && detour < CODE_MAX && 0 < target && MAX_BRANCH_SIZE <= pl && target <= pl
            - MAX_BRANCH_SIZE) {
            proof {
                assert(!old(self).attach_params_ok(cell, detour));
            }
            return Err(DetourError::InvalidParameter);
        }
        proof {
            assert(old(self).attach_params_ok(cell, detour));
        }
        let n = self.hooks.len();
        let mut k: usize = 0;
        while k < n
            invariant
                old(self).inv(),
                n == self.hooks@.len(),
                target == self.cells@[cell as int],
                target + MAX_BRANCH_SIZE <= self.alloc.program_len,
                forall|j: int|
                    0 <= j < k ==> !((#[trigger] self.hooks@[j]).state != HookState::Detached
                        && target < self.hooks@[j].target + self.hooks@[j].saved@.len()
                        && self.hooks@[j].target < target + MAX_BRANCH_SIZE),
                *self == *old(self),
            decreases n - k,
        {
            proof {
                assert(self.hooks@[k as int].target + self.hooks@[k as int].saved@.len()
                    <= self.alloc.program_len);
            }
            let h = &self.hooks[k];
            if h.state != HookState::Detached && target < h.target + h.saved.len() && h.target
                < target + MAX_BRANCH_SIZE {
                proof {
                    assert(old(self).overlaps_existing(target as int)) by {
                        assert((#[trigger] old(self).hooks@[k as int]).state
                            != HookState::Detached);
                    }
                }
                return Err(DetourError::TargetAlreadyHooked);
            }
            k = k + 1;
        }
        proof {
            assert(!old(self).overlaps_existing(target as int));
        }
        let ghost pre_alloc = self.alloc;
        let ghost pre_mem = self.mem@;
        let slot = match self.alloc.acquire(&mut self.mem, target) {
            Ok(s) => s,
            Err(e) => {
                return Err(e);
            },
        };
        proof {
            assert(self.mem@.subrange(0, self.alloc.program_len as int) =~= pre_mem.subrange(
                0,
                self.alloc.program_len as int,
            ));
            // growing the space did not change the prologue bytes, so
            // relocatability is decided by the original image
            assert(self.mem@.subrange(target as int, target + JMP32_LEN + 5) =~= pre_mem.subrange(
                target as int,
                target + JMP32_LEN + 5,
            )) by {
                assert forall|t: int|
                    0 <= t < JMP32_LEN + 5 implies #[trigger] self.mem@.subrange(
                    target as int,
                    target + JMP32_LEN + 5,
                )[t] == pre_mem.subrange(target as int, target + JMP32_LEN + 5)[t] by {
                    assert(self.mem@.subrange(0, pre_mem.len() as int)[target + t] == self.mem@[
                        target + t]);
                }
            }
            lemma_prologue_ok_agree(pre_mem, self.mem@, target as int, JMP32_LEN as int);
        }
        let t = match build(&self.mem, target, slot, JMP32_LEN) {
            Ok(t) => t,
            Err(e) => {
                self.alloc.release(slot);
                proof {
                    assert forall|a: int|
                        self.alloc.slot_used_at(a) == old(self).alloc.slot_used_at(a) by {
                        if a != slot {
                            assert(pre_alloc.slot_used_at(a) == old(self).alloc.slot_used_at(a));
                        } else {
                            assert(!old(self).alloc.slot_used_at(a));
                        }
                    }
                }
                return Err(e);
            },
        };
        let plen = t.prologue_len;
        proof {
            assert(target + plen <= self.mem@.len());
        }
        let mut saved: Vec<u8> = Vec::new();
        let mut i: usize = 0;
        while i < plen
            invariant
                i <= plen,
                target + plen <= self.mem@.len(),
                self.mem@.len() <= CODE_MAX,
                saved@ == self.mem@.subrange(target as int, target + i),
            decreases plen - i,
        {
            saved.push(self.mem[target + i]);
            proof {
                assert(saved@ =~= self.mem@.subrange(target as int, target + i + 1));
            }
            i = i + 1;
        }
        let h = Hook { cell, target, detour, state: HookState::PendingAttach, trampoline: t, saved };
        self.hooks.push(h);
        Ok(())
    }

    /// Whether hook `h` is the active interception on `cell` with `detour`.
    pub open spec fn detach_match(h: Hook, cell: usize, detour: usize) -> bool {
        h.state == HookState::Attached && h.cell == cell && h.detour == detour
    }

    /// Queues the removal of the active hook on `cell` with `detour`.
    /// Valid only for a hook in the `Attached` state; nothing is restored
    /// until commit.
    #[verifier::loop_isolation(false)]
    pub fn detach(&mut self, cell: usize, detour: usize) -> (r: Result<(), DetourError>)
        requires
            old(self).inv(),
        ensures
            final(self).inv(),
            final(self).tx_open == old(self).tx_open,
            final(self).suspend_threads == old(self).suspend_threads,
            final(self).snap == old(self).snap,
            final(self).cells@ == old(self).cells@,
            final(self).mem@ == old(self).mem@,
            final(self).alloc == old(self).alloc,
            match r {
                Ok(()) => exists|k: int|
                    {
                        &&& 0 <= k < old(self).hooks@.len()
                        &&& Self::detach_match(#[trigger] old(self).hooks@[k], cell, detour)
                        &&& forall|j: int|
                            0 <= j < k ==> !Self::detach_match(
                                #[trigger] old(self).hooks@[j],
                                cell,
                                detour,
                            )
                        &&& final(self).hooks@ == old(self).hooks@.update(
                            k,
                            Hook { state: HookState::PendingDetach, ..old(self).hooks@[k] },
                        )
                        &&& old(self).tx_open
                    },
                Err(e) => {
                    &&& *final(self) == *old(self)
                    &&& (e == DetourError::NotOpen || e == DetourError::InvalidState)
                    &&& (e == DetourError::NotOpen <==> !old(self).tx_open)
                    &&& (e == DetourError::InvalidState <==> old(self).tx_open && forall|j: int|
                        0 <= j < old(self).hooks@.len() ==> !Self::detach_match(
                            #[trigger] old(self).hooks@[j],
                            cell,
                            detour,
                        ))
                },
            },
    {
        if !self.tx_open {
            return Err(DetourError::NotOpen);
        }
        let n = self.hooks.len();
        let mut k: usize = 0;
        while k < n
            invariant
                n == self.hooks@.len(),
                forall|j: int|
                    0 <= j < k ==> !Self::detach_match(#[trigger] self.hooks@[j], cell, detour),
                *self == *old(self),
            decreases n - k,
        {
            let found = {
                let h = &self.hooks[k];
                h.state == HookState::Attached && h.cell == cell && h.detour == detour
            };
            if found {
                let mut h = self.hooks.remove(k);
                h.state = HookState::PendingDetach;
                self.hooks.insert(k, h);
                proof {
                    assert(self.hooks@ =~= old(self).hooks@.update(
                        k as int,
                        Hook { state: HookState::PendingDetach, ..old(self).hooks@[k as int] },
                    ));
                    assert(Self::detach_match(old(self).hooks@[k as int], cell, detour));
                    assert(self.snap@ == old(self).snap@);
                    assert(old(self).tx_open && old(self).snap_rel());
                    // a hook past the snapshot prefix is pending attach,
                    // never attached, so the flipped one sits inside it
                    assert(k < self.snap@.hooks.len()) by {
                        if k >= old(self).snap@.hooks.len() {
                            assert(old(self).snap@.hooks.len() <= k as int);
                            assert((k as int) < old(self).hooks@.len());
                            assert(old(self).hooks@[k as int].state == HookState::PendingAttach);
                        }
                    }
                }
                return Ok(());
            }
            k = k + 1;
        }
        Err(DetourError::InvalidState)
    }

    /// Whether the last hook is a queued attach, the shape of the tail a
    /// transaction grows.
    fn last_pending(hooks: &Vec<Hook>) -> (r: bool)
        ensures
            r == (hooks@.len() > 0 && hooks@[hooks@.len() - 1].state == HookState::PendingAttach),
    {
        let l = hooks.len();
        l > 0 && {
            let h = &hooks[l - 1];
            h.state == HookState::PendingAttach
        }
    }

    /// Discards every queued change — releasing the trampolines built for
    /// queued attaches — and closes the transaction without touching any
    /// target's bytes: the observable state returns to what it was when
    /// the transaction began.
    #[verifier::loop_isolation(false)]
    #[verifier::rlimit(100)]
    pub fn transaction_abort(&mut self) -> (r: Result<(), DetourError>)
        requires
            old(self).inv(),
        ensures
            final(self).inv(),
            final(self).alloc.program_len == old(self).alloc.program_len,
            final(self).suspend_threads == old(self).suspend_threads,
            !old(self).tx_open ==> ({
                &&& r == Err::<(), DetourError>(DetourError::NotOpen)
                &&& *final(self) == *old(self)
            }),
            old(self).tx_open ==> ({
                &&& r == Ok::<(), DetourError>(())
                &&& !final(self).tx_open
                &&& final(self).obs() == old(self).snap@
                &&& final(self).mem@ == old(self).mem@
                &&& final(self).cells@ == old(self).cells@
                &&& forall|k: int|
                    old(self).snap@.hooks.len() <= k < old(self).hooks@.len() ==> !final(self).alloc.slot_used_at(
                        (#[trigger] old(self).hooks@[k]).trampoline.slot as int,
                    )
                &&& forall|a: int|
                    (forall|k: int|
                        old(self).snap@.hooks.len() <= k < old(self).hooks@.len() ==> (#[trigger] old(self).hooks@[k]).trampoline.slot != a) ==> final(self).alloc.slot_used_at(a)
                        == old(self).alloc.slot_used_at(a)
            }),
    {
        if !self.tx_open {
            return Err(DetourError::NotOpen);
        }
        let ghost snap_len = self.snap@.hooks.len();
        proof {
            assert(self.hooks@ =~= self.hooks@.subrange(0, self.hooks@.len() as int));
        }
        let mut go = Self::last_pending(&self.hooks);
        while go
            invariant
                self.inv(),
                self.tx_open,
                self.snap == old(self).snap,
                self.mem@ == old(self).mem@,
                self.cells@ == old(self).cells@,
                self.suspend_threads == old(self).suspend_threads,
                self.alloc.program_len == old(self).alloc.program_len,
                snap_len == self.snap@.hooks.len(),
                snap_len <= self.hooks@.len(),
                self.hooks@.len() <= old(self).hooks@.len(),
                self.hooks@ == old(self).hooks@.subrange(0, self.hooks@.len() as int),
                go == (self.hooks@.len() > 0 && self.hooks@[self.hooks@.len() - 1].state
                    == HookState::PendingAttach),
                forall|k: int|
                    self.hooks@.len() <= k < old(self).hooks@.len()
                        ==> !self.alloc.slot_used_at(
                        (#[trigger] old(self).hooks@[k]).trampoline.slot as int,
                    ) && old(self).hooks@[k].state == HookState::PendingAttach,
                forall|a: int|
                    (forall|k: int|
                        self.hooks@.len() <= k < old(self).hooks@.len() ==> (#[trigger] old(self).hooks@[k]).trampoline.slot != a) ==> self.alloc.slot_used_at(a) == old(self).alloc.slot_used_at(a),
            decreases self.hooks@.len(),
        {
            proof {
                // a hook inside the snapshot prefix is never pending
                // attach, so the tail being popped lies beyond it
                assert(self.hooks@.len() > snap_len) by {
                    let l = self.hooks@.len();
                    if l <= snap_len {
                        assert(self.hooks@[l - 1].state == self.snap@.hooks[l - 1].state || (
                        self.hooks@[l - 1].state == HookState::PendingDetach
                            && self.snap@.hooks[l - 1].state == HookState::Attached));
                        assert(self.snap@.hooks[l - 1].state == HookState::Attached
                            || self.snap@.hooks[l - 1].state == HookState::Detached);
                    }
                }
            }
            let ghost prev = self.hooks@;
            let h = match self.hooks.pop() {
                Some(h) => h,
                None => {
                    return Err(DetourError::InvalidState);
                },
            };
            self.alloc.release(h.trampoline.slot);
            proof {
                assert(self.hooks@ =~= prev.subrange(0, prev.len() - 1));
                assert(self.hooks@ =~= old(self).hooks@.subrange(0, self.hooks@.len() as int));
            }
            go = Self::last_pending(&self.hooks);
        }
        proof {
            // nothing pending at the tail is left, so exactly the
            // snapshot's hooks remain
            assert(self.hooks@.len() == snap_len) by {
                if self.hooks@.len() > snap_len {
                    assert(self.hooks@[self.hooks@.len() - 1].state == HookState::PendingAttach);
                }
            }
        }
        let ghost alloc_mid = self.alloc;
        let n = self.hooks.len();
        let mut k: usize = 0;
        while k < n
            invariant
                n == self.hooks@.len(),
                n == self.snap@.hooks.len(),
                self.tx_open,
                self.snap == old(self).snap,
                self.mem@ == old(self).mem@,
                self.cells@ == old(self).cells@,
                self.suspend_threads == old(self).suspend_threads,
                self.alloc.program_len == old(self).alloc.program_len,
                self.alloc == alloc_mid,
                self.inv(),
                k <= n,
                forall|j: int| 0 <= j < k ==> hook_obs(#[trigger] self.hooks@[j]) == self.snap@.hooks[j],
                forall|j: int|
                    0 <= j < k ==> (#[trigger] self.hooks@[j]).state == HookState::Attached
                        || self.hooks@[j].state == HookState::Detached,
            decreases n - k,
        {
            let flip = {
                let h = &self.hooks[k];
                h.state == HookState::PendingDetach
            };
            let ghost prev = self.hooks@;
            if flip {
                let mut h = self.hooks.remove(k);
                h.state = HookState::Attached;
                self.hooks.insert(k, h);
                proof {
                    assert(self.hooks@ =~= prev.update(
                        k as int,
                        Hook { state: HookState::Attached, ..prev[k as int] },
                    ));
                }
            }
            k = k + 1;
        }
        self.tx_open = false;
        proof {
            assert(self.obs().hooks =~= old(self).snap@.hooks);
            assert(self.obs().prog =~= old(self).snap@.prog);
        }
        Ok(())
    }
}

/// The bytes a committed attach writes over the target's prologue: a near
/// jump to the detour, padded with no-ops to the full patch length.
pub open spec fn patch_bytes(target: int, detour: int, plen: int) -> Seq<u8> {
    jmp32_bytes(target, detour) + Seq::new((plen - JMP32_LEN) as nat, |i: int| 0x90u8)
}

/// Whether committing `h` writes the byte at `i`.
pub open spec fn commit_touches(h: Hook, i: int) -> bool {
    ||| (h.state == HookState::PendingAttach && (h.target <= i < h.target + h.saved@.len()
        || h.trampoline.slot <= i < h.trampoline.slot + h.trampoline.bytes@.len()))
    ||| (h.state == HookState::PendingDetach && h.target <= i < h.target + h.saved@.len())
}

/// Whether committing `h` moves a thread whose instruction pointer is `ip`:
/// a queued attach moves threads caught strictly inside the bytes it will
/// overwrite; a queued detach moves threads caught inside the trampoline it
/// will release.
pub open spec fn commit_covers_ip(h: Hook, ip: int) -> bool {
    ||| (h.state == HookState::PendingAttach && h.target < ip < h.target + h.saved@.len())
    ||| (h.state == HookState::PendingDetach && h.trampoline.slot <= ip < h.trampoline.slot
        + h.trampoline.bytes@.len())
}

/// The moved instruction pointer: for an attach, the trampoline offset the
/// offset map gives for the thread's position in the prologue; for a
/// detach, the prologue offset the map gives for its position in the
/// trampoline.
pub open spec fn ip_mapped(h: Hook, ip: int, ip2: int) -> bool {
    if h.state == HookState::PendingAttach {
        exists|j: int|
            0 <= j < h.trampoline.offsets@.len() && (#[trigger] h.trampoline.offsets@[j]).0 == ip
                - h.target && ip2 == h.trampoline.slot + h.trampoline.offsets@[j].1
    } else {
        exists|j: int|
            0 <= j < h.trampoline.offsets@.len() && (#[trigger] h.trampoline.offsets@[j]).1 == ip
                - h.trampoline.slot && ip2 == h.target + h.trampoline.offsets@[j].0
    }
}

/// A thread caught strictly inside the prologue a queued attach will
/// overwrite sits at a relocated instruction boundary with a slot-sized
/// trampoline offset, so its instruction pointer can be moved.
pub open spec fn attach_ip_ok(h: Hook, ip: int) -> bool {
    h.target < ip < h.target + h.saved@.len() ==> exists|j: int|
        0 <= j < h.trampoline.offsets@.len() && (#[trigger] h.trampoline.offsets@[j]).0 == ip
            - h.target && h.trampoline.offsets@[j].1 <= SLOT_SIZE
}

/// A thread caught inside the prologue a queued detach will restore sits at
/// an original instruction boundary (it may stay), and one caught inside
/// the trampoline being released sits at a mapped boundary (it is moved
/// back).
pub open spec fn detach_ip_ok(h: Hook, ip: int) -> bool {
    &&& attach_ip_ok(h, ip)
    &&& (h.trampoline.slot <= ip < h.trampoline.slot + h.trampoline.bytes@.len() ==> exists|j: int|
        0 <= j < h.trampoline.offsets@.len() && (#[trigger] h.trampoline.offsets@[j]).1 == ip
            - h.trampoline.slot && h.trampoline.offsets@[j].0 <= MAX_BRANCH_SIZE + 5)
}

/// Every thread can be suspended and none sits anywhere a queued change
/// would leave it pointing into changed code it cannot be moved out of.
pub open spec fn threads_ok(hooks: Seq<Hook>, threads: Seq<ThreadCtx>) -> bool {
    forall|t: int|
        0 <= t < threads.len() ==> {
            &&& (#[trigger] threads[t]).suspendable
            &&& forall|k: int|
                0 <= k < hooks.len() ==> {
                    let h = #[trigger] hooks[k];
                    &&& (h.state == HookState::PendingAttach ==> attach_ip_ok(h, threads[t].ip as int))
                    &&& (h.state == HookState::PendingDetach ==> detach_ip_ok(h, threads[t].ip as int))
                }
        }
}

/// The hook after a successful commit: queued states become settled ones.
pub open spec fn committed_hook(h: Hook) -> Hook {
    match h.state {
        HookState::PendingAttach => Hook { state: HookState::Attached, ..h },
        HookState::PendingDetach => Hook { state: HookState::Detached, ..h },
        _ => h,
    }
}

/// Everything a successful commit does to the engine: every queued attach
/// has its trampoline written into its slot, its target's prologue
/// overwritten with the patch and its cell routed to the trampoline; every
/// queued detach has the captured original bytes written back, its cell
/// routed to the target again and its slot freed; every byte and cell no
/// queued change touches keeps its value, and every hook moves to its
/// settled state.
pub open spec fn commit_applied(pre: Engine, post: Engine) -> bool {
    &&& post.mem@.len() == pre.mem@.len()
    &&& post.hooks@.len() == pre.hooks@.len()
    &&& post.cells@.len() == pre.cells@.len()
    &&& post.alloc.program_len == pre.alloc.program_len
    &&& forall|k: int|
        0 <= k < pre.hooks@.len() ==> post.hooks@[k] == committed_hook(#[trigger] pre.hooks@[k])
    &&& forall|k: int|
        0 <= k < pre.hooks@.len() && (#[trigger] pre.hooks@[k]).state == HookState::PendingAttach
            ==> {
            let h = pre.hooks@[k];
            &&& post.mem@.subrange(h.target as int, h.target + h.saved@.len()) == patch_bytes(
                h.target as int,
                h.detour as int,
                h.saved@.len() as int,
            )
            &&& post.mem@.subrange(
                h.trampoline.slot as int,
                h.trampoline.slot + h.trampoline.bytes@.len(),
            ) == h.trampoline.bytes@
            &&& post.cells@[h.cell as int] == h.trampoline.slot
        }
    &&& forall|k: int|
        0 <= k < pre.hooks@.len() && (#[trigger] pre.hooks@[k]).state == HookState::PendingDetach
            ==> {
            let h = pre.hooks@[k];
            &&& post.mem@.subrange(h.target as int, h.target + h.saved@.len()) == h.saved@
            &&& post.cells@[h.cell as int] == h.target
            &&& !post.alloc.slot_used_at(h.trampoline.slot as int)
        }
    &&& forall|i: int|
        0 <= i < pre.mem@.len() && (forall|k: int|
            0 <= k < pre.hooks@.len() ==> !commit_touches(#[trigger] pre.hooks@[k], i))
            ==> post.mem@[i] == pre.mem@[i]
    &&& forall|c: int|
        0 <= c < pre.cells@.len() && (forall|k: int|
            0 <= k < pre.hooks@.len() ==> !((#[trigger] pre.hooks@[k]).cell == c && (
            pre.hooks@[k].state == HookState::PendingAttach || pre.hooks@[k].state
                == HookState::PendingDetach))) ==> post.cells@[c] == pre.cells@[c]
}

/// Overwrites `mem[at .. at + data.len())` with `data`, leaving every other
/// byte as it was.
fn write_at(mem: &mut Vec<u8>, at: usize, data: &Vec<u8>)
    requires
        at + data@.len() <= old(mem)@.len(),
    ensures
        final(mem)@.len() == old(mem)@.len(),
        final(mem)@.subrange(at as int, at + data@.len()) == data@,
        forall|i: int|
            0 <= i < old(mem)@.len() && !(at <= i < at + data@.len()) ==> final(mem)@[i] == old(
                mem,
            )@[i],
{
    let n = data.len();
    let total = mem.len();
    let mut i: usize = 0;
    while i < n
        invariant
            n == data@.len(),
            total == mem@.len(),
            at + n <= mem@.len(),
            i <= n,
            mem@.len() == old(mem)@.len(),
            mem@.subrange(at as int, at + i) == data@.subrange(0, i as int),
            forall|t: int|
                0 <= t < mem@.len() && !(at <= t < at + i) ==> mem@[t] == old(mem)@[t],
        decreases n - i,
    {
        let ghost prev = mem@;
        mem.set(at + i, data[i]);
        proof {
            assert(mem@.subrange(at as int, at + i + 1) =~= data@.subrange(0, i + 1));
        }
        i = i + 1;
    }
    proof {
        assert(data@.subrange(0, n as int) =~= data@);
    }
}

/// The patch an attach writes: a near jump to `detour` followed by no-ops.
fn make_patch(target: usize, detour: usize, plen: usize) -> (v: Vec<u8>)
    requires
        JMP32_LEN <= plen <= MAX_BRANCH_SIZE + 5,
        target + plen <= CODE_MAX,
        detour <= CODE_MAX,
    ensures
        v@.len() == plen,
        v@ == patch_bytes(target as int, detour as int, plen as int),
{
    let mut v: Vec<u8> = Vec::new();
    v.push(0xE9);
    crate::trampoline::push_disp32(&mut v, detour as i64 - (target + JMP32_LEN) as i64);
    proof {
        assert(v@ =~= jmp32_bytes(target as int, detour as int));
    }
    while v.len() < plen
        invariant
            JMP32_LEN <= v@.len() <= plen,
            v@.subrange(0, JMP32_LEN as int) == jmp32_bytes(target as int, detour as int),
            forall|j: int| JMP32_LEN <= j < v@.len() ==> v@[j] == 0x90u8,
        decreases plen - v@.len(),
    {
        let ghost prev = v@;
        v.push(0x90);
        proof {
            assert(v@.subrange(0, JMP32_LEN as int) =~= prev.subrange(0, JMP32_LEN as int));
        }
    }
    proof {
        assert(v@ =~= patch_bytes(target as int, detour as int, plen as int));
    }
    v
}

/// First offset pair mapping the prologue offset `off`, if its trampoline
/// side fits a slot.
fn find_by_orig(offsets: &Vec<(usize, usize)>, off: usize) -> (r: Option<usize>)
    ensures
        match r {
            Some(j) => (j as int) < offsets@.len() && offsets@[j as int].0 == off
                && offsets@[j as int].1 <= SLOT_SIZE,
            None => forall|j: int|
                0 <= j < offsets@.len() ==> !((#[trigger] offsets@[j]).0 == off && offsets@[j].1
                    <= SLOT_SIZE),
        },
{
    let n = offsets.len();
    let mut k: usize = 0;
    while k < n
        invariant
            n == offsets@.len(),
            forall|j: int|
                0 <= j < k ==> !((#[trigger] offsets@[j]).0 == off && offsets@[j].1 <= SLOT_SIZE),
        decreases n - k,
    {
        let (o, t) = offsets[k];
        if o == off && t <= SLOT_SIZE {
            return Some(k);
        }
        k = k + 1;
    }
    None
}

/// First offset pair mapping the trampoline offset `noff`, if its prologue
/// side fits a patch.
fn find_by_tramp(offsets: &Vec<(usize, usize)>, noff: usize) -> (r: Option<usize>)
    ensures
        match r {
            Some(j) => (j as int) < offsets@.len() && offsets@[j as int].1 == noff
                && offsets@[j as int].0 <= MAX_BRANCH_SIZE + 5,
            None => forall|j: int|
                0 <= j < offsets@.len() ==> !((#[trigger] offsets@[j]).1 == noff && offsets@[j].0
                    <= MAX_BRANCH_SIZE + 5),
        },
{
    let n = offsets.len();
    let mut k: usize = 0;
    while k < n
        invariant
            n == offsets@.len(),
            forall|j: int|
                0 <= j < k ==> !((#[trigger] offsets@[j]).1 == noff && offsets@[j].0
                    <= MAX_BRANCH_SIZE + 5),
        decreases n - k,
    {
        let (o, t) = offsets[k];
        if t == noff && o <= MAX_BRANCH_SIZE + 5 {
            return Some(k);
        }
        k = k + 1;
    }
    None
}

/// How commit leaves one thread: untouched unless a queued change covered
/// its instruction pointer, and then moved to the mapped offset.
pub open spec fn thread_adjusted(hooks: Seq<Hook>, t0: ThreadCtx, t1: ThreadCtx) -> bool {
    &&& t1.suspendable == t0.suspendable
    &&& ((forall|k: int|
        0 <= k < hooks.len() ==> !commit_covers_ip(#[trigger] hooks[k], t0.ip as int)) ==> t1.ip
        == t0.ip)
    &&& (forall|k: int|
        0 <= k < hooks.len() && commit_covers_ip(#[trigger] hooks[k], t0.ip as int) ==> ip_mapped(
            hooks[k],
            t0.ip as int,
            t1.ip as int,
        ))
}

/// Checks that every thread can be suspended and, where one sits inside
/// bytes a queued change will rewrite or release, that the offset maps can
/// move it.
#[verifier::loop_isolation(false)]
fn threads_check(hooks: &Vec<Hook>, threads: &Vec<ThreadCtx>) -> (r: bool)
    requires
        forall|k: int|
            0 <= k < hooks@.len() ==> (#[trigger] hooks@[k]).target + hooks@[k].saved@.len()
                <= CODE_MAX && hooks@[k].trampoline.slot + hooks@[k].trampoline.bytes@.len()
                <= CODE_MAX,
    ensures
        r == threads_ok(hooks@, threads@),
{
    let tn = threads.len();
    let hn = hooks.len();
    let mut t: usize = 0;
    while t < tn
        invariant
            tn == threads@.len(),
            hn == hooks@.len(),
            forall|x: int|
                0 <= x < t ==> (#[trigger] threads@[x]).suspendable && forall|k: int|
                    0 <= k < hooks@.len() ==> {
                        let h = #[trigger] hooks@[k];
                        &&& (h.state == HookState::PendingAttach ==> attach_ip_ok(
                            h,
                            threads@[x].ip as int,
                        ))
                        &&& (h.state == HookState::PendingDetach ==> detach_ip_ok(
                            h,
                            threads@[x].ip as int,
                        ))
                    },
        decreases tn - t,
    {
        if !threads[t].suspendable {
            return false;
        }
        let ip = threads[t].ip;
        let mut k: usize = 0;
        while k < hn
            invariant
                hn == hooks@.len(),
                ip == threads@[t as int].ip,
                0 <= t < threads@.len(),
                forall|k: int|
                    0 <= k < hooks@.len() ==> (#[trigger] hooks@[k]).target
                        + hooks@[k].saved@.len() <= CODE_MAX && hooks@[k].trampoline.slot
                        + hooks@[k].trampoline.bytes@.len() <= CODE_MAX,
                forall|j: int|
                    0 <= j < k ==> {
                        let h = #[trigger] hooks@[j];
                        &&& (h.state == HookState::PendingAttach ==> attach_ip_ok(h, ip as int))
                        &&& (h.state == HookState::PendingDetach ==> detach_ip_ok(h, ip as int))
                    },
            decreases hn - k,
        {
            let st = hooks[k].state;
            if st == HookState::PendingAttach || st == HookState::PendingDetach {
                let tgt = hooks[k].target;
                let slen = hooks[k].saved.len();
                if tgt < ip && ip < tgt + slen {
                    match find_by_orig(&hooks[k].trampoline.offsets, ip - tgt) {
                        Some(_) => {},
                        None => {
                            proof {
                                assert(!attach_ip_ok(hooks@[k as int], ip as int));
                            }
                            return false;
                        },
                    }
                }
            }
            if st == HookState::PendingDetach {
                let slot = hooks[k].trampoline.slot;
                let bl = hooks[k].trampoline.bytes.len();
                if slot <= ip && ip < slot + bl {
                    match find_by_tramp(&hooks[k].trampoline.offsets, ip - slot) {
                        Some(_) => {},
                        None => {
                            proof {
                                assert(!detach_ip_ok(hooks@[k as int], ip as int));
                            }
                            return false;
                        },
                    }
                }
            }
            k = k + 1;
        }
        t = t + 1;
    }
    true
}

impl Engine {
    /// At most one queued change covers a given instruction pointer: the
    /// patched prologues are pairwise disjoint, the released trampolines
    /// sit in pairwise disjoint slots, and slots lie above every prologue.
    proof fn lemma_unique_cover(self, k: int, ip: int)
        requires
            self.inv(),
            0 <= k < self.hooks@.len(),
            commit_covers_ip(self.hooks@[k], ip),
        ensures
            forall|j: int|
                0 <= j < self.hooks@.len() && j != k ==> !commit_covers_ip(
                    #[trigger] self.hooks@[j],
                    ip,
                ),
    {
        assert forall|j: int|
            0 <= j < self.hooks@.len() && j != k implies !commit_covers_ip(
            #[trigger] self.hooks@[j],
            ip,
        ) by {
            if commit_covers_ip(self.hooks@[j], ip) {
                let hj = self.hooks@[j];
                let hk = self.hooks@[k];
                if hj.state == HookState::PendingDetach && hk.state == HookState::PendingDetach {
                    if j < k {
                        self.alloc.lemma_used_slots_separated(
                            self.mem@.len() as int,
                            hj.trampoline.slot as int,
                            hk.trampoline.slot as int,
                        );
                    } else {
                        self.alloc.lemma_used_slots_separated(
                            self.mem@.len() as int,
                            hk.trampoline.slot as int,
                            hj.trampoline.slot as int,
                        );
                    }
                }
            }
        }
    }

    /// Moves every thread caught inside bytes a queued change will rewrite
    /// or release to the offset its trampoline's map gives, leaving every
    /// other thread where it was.
    #[verifier::loop_isolation(false)]
    #[verifier::rlimit(100)]
    fn relocate_threads(&self, threads: &mut Vec<ThreadCtx>)
        requires
            self.inv(),
            self.tx_open,
            threads_ok(self.hooks@, old(threads)@),
        ensures
            final(threads)@.len() == old(threads)@.len(),
            forall|t: int|
                0 <= t < old(threads)@.len() ==> thread_adjusted(
                    self.hooks@,
                    #[trigger] old(threads)@[t],
                    final(threads)@[t],
                ),
    {
        let tn = threads.len();
        let hn = self.hooks.len();
        let mut t: usize = 0;
        while t < tn
            invariant
                tn == threads@.len(),
                hn == self.hooks@.len(),
                forall|x: int| t <= x < tn ==> threads@[x] == old(threads)@[x],
                forall|x: int|
                    0 <= x < t ==> thread_adjusted(
                        self.hooks@,
                        #[trigger] old(threads)@[x],
                        threads@[x],
                    ),
            decreases tn - t,
        {
            let ip = threads[t].ip;
            let susp = threads[t].suspendable;
            let mut newip = ip;
            let mut k: usize = 0;
            while k < hn
                invariant
                    0 <= t < tn,
                    ip == old(threads)@[t as int].ip,
                    susp == old(threads)@[t as int].suspendable,
                    k <= hn,
                    newip == ip || exists|j: int|
                        0 <= j < k && commit_covers_ip(#[trigger] self.hooks@[j], ip as int),
                    forall|j: int|
                        0 <= j < k && commit_covers_ip(#[trigger] self.hooks@[j], ip as int)
                            ==> ip_mapped(self.hooks@[j], ip as int, newip as int),
                decreases hn - k,
            {
                let st = self.hooks[k].state;
                let tgt = self.hooks[k].target;
                let slen = self.hooks[k].saved.len();
                if st == HookState::PendingAttach && tgt < ip && ip < tgt + slen {
                    match find_by_orig(&self.hooks[k].trampoline.offsets, ip - tgt) {
                        Some(j) => {
                            let (_, noff) = self.hooks[k].trampoline.offsets[j];
                            newip = self.hooks[k].trampoline.slot + noff;
                        },
                        None => {
                            proof {
                                assert(attach_ip_ok(self.hooks@[k as int], ip as int));
                                assert(false);
                            }
                        },
                    }
                    proof {
                        self.lemma_unique_cover(k as int, ip as int);
                    }
                } else if st == HookState::PendingDetach {
                    let slot = self.hooks[k].trampoline.slot;
                    let bl = self.hooks[k].trampoline.bytes.len();
                    if slot <= ip && ip < slot + bl {
                        match find_by_tramp(&self.hooks[k].trampoline.offsets, ip - slot) {
                            Some(j) => {
                                let (ooff, _) = self.hooks[k].trampoline.offsets[j];
                                newip = tgt + ooff;
                            },
                            None => {
                                proof {
                                    assert(detach_ip_ok(self.hooks@[k as int], ip as int));
                                    assert(false);
                                }
                            },
                        }
                        proof {
                            self.lemma_unique_cover(k as int, ip as int);
                        }
                    }
                }
                k = k + 1;
            }
            proof {
                let ctx = ThreadCtx { ip: newip, suspendable: susp };
                assert(thread_adjusted(self.hooks@, old(threads)@[t as int], ctx)) by {
                    if newip != ip {
                        let j = choose|j: int|
                            0 <= j < hn && commit_covers_ip(
                                #[trigger] self.hooks@[j],
                                ip as int,
                            );
                        assert(commit_covers_ip(self.hooks@[j], ip as int));
                    }
                }
            }
            let ghost before = threads@;
            threads.set(t, ThreadCtx { ip: newip, suspendable: susp });
            proof {
                assert forall|x: int| 0 <= x < t + 1 implies thread_adjusted(
                    self.hooks@,
                    #[trigger] old(threads)@[x],
                    threads@[x],
                ) by {
                    if x < t {
                        assert(threads@[x] == before[x]);
                    }
                }
            }
            t = t + 1;
        }
    }

    /// Applies every queued change to memory, cells and hook states, in
    /// queue order, and closes the transaction.
    #[verifier::loop_isolation(false)]
    #[verifier::rlimit(100)]
    fn apply_changes(&mut self)
        requires
            old(self).inv(),
            old(self).tx_open,
        ensures
            final(self).inv(),
            !final(self).tx_open,
            final(self).suspend_threads == old(self).suspend_threads,
            commit_applied(*old(self), *final(self)),
    {
        let hn = self.hooks.len();
        let mut k: usize = 0;
        while k < hn
            invariant
                k <= hn,
                hn == self.hooks@.len(),
                self.hooks@.len() == old(self).hooks@.len(),
                self.tx_open,
                self.snap == old(self).snap,
                self.suspend_threads == old(self).suspend_threads,
                self.alloc.program_len == old(self).alloc.program_len,
                self.alloc.cap == old(self).alloc.cap,
                self.alloc.slot_base@ == old(self).alloc.slot_base@,
                self.alloc.slot_used@.len() == old(self).alloc.slot_used@.len(),
                self.mem@.len() == old(self).mem@.len(),
                self.cells@.len() == old(self).cells@.len(),
                forall|j: int| k <= j < hn ==> self.hooks@[j] == old(self).hooks@[j],
                forall|j: int|
                    0 <= j < k ==> self.hooks@[j] == committed_hook(#[trigger] old(self).hooks@[j]),
                forall|j: int|
                    0 <= j < k && (#[trigger] old(self).hooks@[j]).state
                        == HookState::PendingAttach ==> {
                        let h = old(self).hooks@[j];
                        &&& self.mem@.subrange(h.target as int, h.target + h.saved@.len())
                            == patch_bytes(h.target as int, h.detour as int, h.saved@.len() as int)
                        &&& self.mem@.subrange(
                            h.trampoline.slot as int,
                            h.trampoline.slot + h.trampoline.bytes@.len(),
                        ) == h.trampoline.bytes@
                        &&& self.cells@[h.cell as int] == h.trampoline.slot
                    },
                forall|j: int|
                    0 <= j < k && (#[trigger] old(self).hooks@[j]).state
                        == HookState::PendingDetach ==> {
                        let h = old(self).hooks@[j];
                        &&& self.mem@.subrange(h.target as int, h.target + h.saved@.len())
                            == h.saved@
                        &&& self.cells@[h.cell as int] == h.target
                        &&& !self.alloc.slot_used_at(h.trampoline.slot as int)
                    },
                forall|i: int|
                    0 <= i < old(self).mem@.len() ==> (#[trigger] self.mem@[i] == old(self).mem@[i]
                        || exists|j: int|
                        0 <= j < k && commit_touches(#[trigger] old(self).hooks@[j], i)),
                forall|c: int|
                    0 <= c < old(self).cells@.len() ==> (#[trigger] self.cells@[c] == old(self).cells@[c] || exists|j: int|
                        0 <= j < k && (#[trigger] old(self).hooks@[j]).cell == c && (old(self).hooks@[j].state == HookState::PendingAttach || old(self).hooks@[j].state
                            == HookState::PendingDetach)),
                forall|a: int|
                    (forall|j: int|
                        0 <= j < k ==> !((#[trigger] old(self).hooks@[j]).state
                            == HookState::PendingDetach && old(self).hooks@[j].trampoline.slot
                            == a)) ==> self.alloc.slot_used_at(a) == old(self).alloc.slot_used_at(
                        a,
                    ),
            decreases hn - k,
        {
            let st = self.hooks[k].state;
            let tgt = self.hooks[k].target;
            let det = self.hooks[k].detour;
            let cidx = self.hooks[k].cell;
            let slot = self.hooks[k].trampoline.slot;
            let plen = self.hooks[k].saved.len();
            proof {
                // two queued changes never share a cell: two queued
                // attaches on one cell would hook one target twice, a
                // queued attach and a queued detach disagree on what the
                // cell holds, and two queued detaches would share a slot
                if st == HookState::PendingAttach || st == HookState::PendingDetach {
                    let hk = old(self).hooks@[k as int];
                    assert forall|j: int|
                        0 <= j < hn && j != k && ((#[trigger] old(self).hooks@[j]).state
                        == HookState::PendingAttach || old(self).hooks@[j].state
                        == HookState::PendingDetach) implies old(self).hooks@[j].cell != hk.cell by {
                        let hj = old(self).hooks@[j];
                        if hj.cell == hk.cell {
                            if hj.state == HookState::PendingAttach && hk.state
                                == HookState::PendingAttach {
                                assert(old(self).cells@[hj.cell as int] == hj.target);
                                assert(old(self).cells@[hk.cell as int] == hk.target);
                                assert(hj.target == hk.target);
                                assert(hj.state != HookState::Detached && hk.state
                                    != HookState::Detached);
                                assert(JMP32_LEN <= hj.saved@.len());
                            } else if hj.state == HookState::PendingDetach && hk.state
                                == HookState::PendingDetach {
                                assert(old(self).cells@[hj.cell as int] == hj.trampoline.slot);
                                assert(old(self).cells@[hk.cell as int] == hk.trampoline.slot);
                                assert(hj.state != HookState::Detached && hk.state
                                    != HookState::Detached);
                            } else {
                                assert(old(self).alloc.program_len
                                    <= old(self).hooks@[j].trampoline.slot);
                                assert(old(self).alloc.program_len
                                    <= old(self).hooks@[k as int].trampoline.slot);
                            }
                        }
                    }
                }
            }
            if st == HookState::PendingAttach {
                write_at(&mut self.mem, slot, &self.hooks[k].trampoline.bytes);
                let patch = make_patch(tgt, det, plen);
                write_at(&mut self.mem, tgt, &patch);
                self.cells.set(cidx, slot);
                let mut h = self.hooks.remove(k);
                h.state = HookState::Attached;
                self.hooks.insert(k, h);
            } else if st == HookState::PendingDetach {
                write_at(&mut self.mem, tgt, &self.hooks[k].saved);
                self.cells.set(cidx, tgt);
                self.alloc.release(slot);
                let mut h = self.hooks.remove(k);
                h.state = HookState::Detached;
                self.hooks.insert(k, h);
            }
            k = k + 1;
        }
        proof {
            assert forall|k: int|
                0 <= k < self.hooks@.len() implies (#[trigger] self.hooks@[k]) == committed_hook(
                old(self).hooks@[k],
            ) by {}
            let hn_g = old(self).hooks@.len() as int;
            assert forall|i: int|
                0 <= i < old(self).mem@.len() && (forall|j: int|
                    0 <= j < hn_g ==> !commit_touches(#[trigger] old(self).hooks@[j], i)) implies
                self.mem@[i] == old(self).mem@[i] by {
                if self.mem@[i] != old(self).mem@[i] {
                    let j = choose|j: int|
                        0 <= j < hn_g && commit_touches(#[trigger] old(self).hooks@[j], i);
                    assert(commit_touches(old(self).hooks@[j], i));
                }
            }
            assert forall|c: int|
                0 <= c < old(self).cells@.len() && (forall|j: int|
                    0 <= j < hn_g ==> !((#[trigger] old(self).hooks@[j]).cell == c && (old(self).hooks@[j].state == HookState::PendingAttach || old(self).hooks@[j].state
                        == HookState::PendingDetach))) implies self.cells@[c] == old(self).cells@[c] by {
                if self.cells@[c] != old(self).cells@[c] {
                    let j = choose|j: int|
                        0 <= j < hn_g && (#[trigger] old(self).hooks@[j]).cell == c && (old(self).hooks@[j].state == HookState::PendingAttach || old(self).hooks@[j].state
                            == HookState::PendingDetach);
                    assert(old(self).hooks@[j].cell == c);
                }
            }
            assert forall|k: int|
                0 <= k < self.hooks@.len() && (#[trigger] self.hooks@[k]).state
                != HookState::Detached implies self.cells@[self.hooks@[k].cell as int]
                == self.hooks@[k].trampoline.slot && self.alloc.slot_used_at(
                self.hooks@[k].trampoline.slot as int,
            ) by {
                let h0 = old(self).hooks@[k];
                if h0.state == HookState::Attached {
                    // no queued change shares this hook's cell: a queued
                    // attach's cell holds a program address, not a slot,
                    // and a queued detach's cell would hold this very slot
                    assert(self.cells@[h0.cell as int] == old(self).cells@[h0.cell as int]) by {
                        if self.cells@[h0.cell as int] != old(self).cells@[h0.cell as int] {
                            let j = choose|j: int|
                                0 <= j < old(self).hooks@.len() && (#[trigger] old(self).hooks@[j]).cell == h0.cell as int && (old(self).hooks@[j].state
                                    == HookState::PendingAttach || old(self).hooks@[j].state
                                    == HookState::PendingDetach);
                            let hj = old(self).hooks@[j];
                            assert(j != k);
                            if hj.state == HookState::PendingAttach {
                                assert(old(self).cells@[hj.cell as int] == hj.target);
                                assert(hj.target < old(self).alloc.program_len);
                                assert(old(self).cells@[h0.cell as int] == h0.trampoline.slot);
                            }
                            if hj.state == HookState::PendingDetach {
                                assert(old(self).cells@[hj.cell as int] == hj.trampoline.slot);
                                assert(old(self).cells@[h0.cell as int] == h0.trampoline.slot);
                                assert(hj.state != HookState::Detached && h0.state
                                    != HookState::Detached);
                            }
                        }
                    }
                }
                // the slot stays marked used: only queued detaches release
                // slots, and theirs are distinct from this one
                assert forall|j: int|
                    0 <= j < old(self).hooks@.len() implies !((#[trigger] old(self).hooks@[j]).state
                    == HookState::PendingDetach && old(self).hooks@[j].trampoline.slot
                    == h0.trampoline.slot as int) by {
                    let hj = old(self).hooks@[j];
                    if j != k && hj.state == HookState::PendingDetach && hj.trampoline.slot
                        == h0.trampoline.slot {
                        assert(hj.state != HookState::Detached && h0.state != HookState::Detached);
                    }
                }
            }
        }
        self.tx_open = false;
    }

    /// The only operation that touches code other threads may be running.
    /// With thread suspension on, it first confirms every thread can be
    /// frozen and moved out of the bytes about to change — failing that, it
    /// rolls the whole transaction back untouched and reports
    /// `ThreadControlFailure`. It then moves each caught thread's
    /// instruction pointer to the matching trampoline (or prologue)
    /// offset, applies every queued change at once — writing each attach's
    /// trampoline and entry patch, restoring each detach's original bytes,
    /// rewriting the callers' cells — and closes the transaction. The
    /// queued changes take effect together or not at all.
    pub fn transaction_commit(&mut self, threads: &mut Vec<ThreadCtx>) -> (r: Result<
        (),
        DetourError,
    >)
        requires
            old(self).inv(),
        ensures
            final(self).inv(),
            final(self).alloc.program_len == old(self).alloc.program_len,
            final(self).suspend_threads == old(self).suspend_threads,
            match r {
                Ok(()) => {
                    &&& old(self).tx_open
                    &&& !final(self).tx_open
                    &&& (old(self).suspend_threads ==> threads_ok(old(self).hooks@, old(threads)@))
                    &&& commit_applied(*old(self), *final(self))
                    &&& final(threads)@.len() == old(threads)@.len()
                    &&& (!old(self).suspend_threads ==> final(threads)@ == old(threads)@)
                    &&& (old(self).suspend_threads ==> forall|t: int|
                        0 <= t < old(threads)@.len() ==> thread_adjusted(
                            old(self).hooks@,
                            #[trigger] old(threads)@[t],
                            final(threads)@[t],
                        ))
                },
                Err(e) => {
                    &&& (e == DetourError::NotOpen || e == DetourError::ThreadControlFailure)
                    &&& (e == DetourError::NotOpen <==> !old(self).tx_open)
                    &&& (!old(self).tx_open ==> *final(self) == *old(self) && final(threads)@
                        == old(threads)@)
                    &&& (e == DetourError::ThreadControlFailure <==> old(self).tx_open && old(self).suspend_threads && !threads_ok(old(self).hooks@, old(threads)@))
                    &&& (e == DetourError::ThreadControlFailure ==> !final(self).tx_open && final(self).obs() == old(self).snap@ && final(self).mem@ == old(self).mem@ && final(threads)@ == old(threads)@)
                },
            },
    {
        if !self.tx_open {
            return Err(DetourError::NotOpen);
        }
        if self.suspend_threads {
            if !threads_check(&self.hooks, threads) {
                match self.transaction_abort() {
                    Ok(()) => {},
                    Err(_) => {},
                }
                return Err(DetourError::ThreadControlFailure);
            }
            self.relocate_threads(threads);
        }
        self.apply_changes();
        Ok(())
    }

    /// Resolves a pointer that may itself be a jump or thunk — export
    /// forwarding, an import stub — to the code entry it leads to.
    pub fn code_from_pointer(&self, addr: usize) -> (r: usize)
        requires
            self.inv(),
        ensures
            r == crate::decoder::spec_resolve(
                self.mem@,
                addr as int,
                crate::decoder::RESOLVE_FUEL as nat,
            ),
    {
        crate::decoder::code_from_pointer(&self.mem, addr)
    }

    /// Installs or removes one hook as its own transaction: begins,
    /// queues the one change, and commits, freezing the other threads.
    /// On any failure the engine is left closed and observably unchanged.
    #[verifier::rlimit(100)]
    pub fn inline_hook(
        &mut self,
        enable: bool,
        cell: usize,
        detour: usize,
        threads: &mut Vec<ThreadCtx>,
    ) -> (r: Result<(), DetourError>)
        requires
            old(self).inv(),
            !old(self).tx_open,
        ensures
            final(self).inv(),
            !final(self).tx_open,
            final(self).alloc.program_len == old(self).alloc.program_len,
            match r {
                Ok(()) => {
                    if enable {
                        let h = final(self).hooks@[final(self).hooks@.len() - 1];
                        &&& final(self).hooks@.len() == old(self).hooks@.len() + 1
                        &&& h.cell == cell
                        &&& h.detour == detour
                        &&& h.state == HookState::Attached
                        &&& h.target == old(self).cells@[cell as int]
                        &&& h.saved@ == old(self).mem@.subrange(
                            h.target as int,
                            h.target + h.saved@.len(),
                        )
                        &&& final(self).mem@.subrange(h.target as int, h.target + h.saved@.len())
                            == patch_bytes(h.target as int, h.detour as int, h.saved@.len() as int)
                        &&& final(self).mem@.subrange(
                            h.trampoline.slot as int,
                            h.trampoline.slot + h.trampoline.bytes@.len(),
                        ) == h.trampoline.bytes@
                        &&& final(self).cells@[cell as int] == h.trampoline.slot
                        &&& forall|i: int|
                            0 <= i < old(self).alloc.program_len && !(h.target <= i < h.target
                                + h.saved@.len()) ==> final(self).mem@[i] == old(self).mem@[i]
                    } else {
                        exists|k: int|
                            {
                                let h = #[trigger] old(self).hooks@[k];
                                &&& 0 <= k < old(self).hooks@.len()
                                &&& Self::detach_match(h, cell, detour)
                                &&& final(self).hooks@[k] == (Hook {
                                    state: HookState::Detached,
                                    ..h
                                })
                                &&& final(self).mem@.subrange(
                                    h.target as int,
                                    h.target + h.saved@.len(),
                                ) == h.saved@
                                &&& final(self).cells@[cell as int] == h.target
                                &&& !final(self).alloc.slot_used_at(h.trampoline.slot as int)
                                &&& forall|i: int|
                                    0 <= i < old(self).alloc.program_len && !(h.target <= i
                                        < h.target + h.saved@.len()) ==> final(self).mem@[i] == old(
                                        self,
                                    ).mem@[i]
                            }
                    }
                },
                Err(e) => {
                    &&& final(self).obs() == old(self).obs()
                    &&& e != DetourError::AlreadyOpen && e != DetourError::NotOpen
                },
            },
    {
        match self.transaction_begin(true) {
            Ok(()) => {},
            Err(e) => {
                return Err(e);
            },
        }
        let queued = if enable {
            self.attach(cell, detour)
        } else {
            self.detach(cell, detour)
        };
        match queued {
            Ok(()) => {},
            Err(e) => {
                match self.transaction_abort() {
                    Ok(()) => {},
                    Err(_) => {},
                }
                proof {
                    assert(self.obs().prog =~= old(self).obs().prog);
                }
                return Err(e);
            },
        }
        let ghost m2 = self.mem@;
        let ghost hooks2 = self.hooks@;
        let ghost prog_len = self.alloc.program_len as int;
        match self.transaction_commit(threads) {
            Ok(()) => {},
            Err(e) => {
                proof {
                    assert(self.obs().prog =~= old(self).obs().prog);
                }
                return Err(e);
            },
        }
        proof {
            if enable {
                let last = hooks2.len() - 1;
                let h = hooks2[last];
                assert(self.hooks@[last] == committed_hook(h));
                // the capture was of the original image's bytes: queuing
                // the attach only grew the space past the program
                assert(h.saved@ =~= old(self).mem@.subrange(
                    h.target as int,
                    h.target + h.saved@.len(),
                )) by {
                    assert forall|t: int|
                        0 <= t < h.saved@.len() implies #[trigger] h.saved@[t] == old(self).mem@.subrange(h.target as int, h.target + h.saved@.len())[t] by {
                        assert(m2.subrange(0, prog_len)[h.target + t] == m2[h.target + t]);
                        assert(old(self).mem@.subrange(0, prog_len)[h.target + t] == old(self).mem@[h.target + t]);
                        assert(h.saved@[t] == m2.subrange(h.target as int, h.target + h.saved@.len())[t]);
                    }
                }
                // nothing but this one queued change touched the program
                // image: every other hook was settled when it began
                assert forall|i: int|
                    0 <= i < prog_len && !(h.target <= i < h.target + h.saved@.len()) implies
                    self.mem@[i] == old(self).mem@[i] by {
                    assert forall|k: int|
                        0 <= k < hooks2.len() implies !commit_touches(
                        #[trigger] hooks2[k],
                        i,
                    ) by {
                        if k < last {
                            assert(hooks2[k] == old(self).hooks@[k]);
                            assert(old(self).hooks@[k].state == HookState::Attached || old(self).hooks@[k].state == HookState::Detached);
                        } else {
                            assert(prog_len <= h.trampoline.slot);
                        }
                    }
                    assert(m2.subrange(0, prog_len)[i] == m2[i]);
                    assert(old(self).mem@.subrange(0, prog_len)[i] == old(self).mem@[i]);
                }
            } else {
                let k = choose|k: int|
                    {
                        &&& 0 <= k < hooks2.len()
                        &&& Self::detach_match(#[trigger] old(self).hooks@[k], cell, detour)
                        &&& forall|j: int|
                            0 <= j < k ==> !Self::detach_match(
                                #[trigger] old(self).hooks@[j],
                                cell,
                                detour,
                            )
                        &&& hooks2 == old(self).hooks@.update(
                            k,
                            Hook { state: HookState::PendingDetach, ..old(self).hooks@[k] },
                        )
                    };
                let h = old(self).hooks@[k];
                assert(hooks2[k] == (Hook { state: HookState::PendingDetach, ..h }));
                assert(self.hooks@[k] == committed_hook(hooks2[k]));
                assert forall|i: int|
                    0 <= i < prog_len && !(h.target <= i < h.target + h.saved@.len()) implies
                    self.mem@[i] == old(self).mem@[i] by {
                    assert forall|j: int|
                        0 <= j < hooks2.len() implies !commit_touches(
                        #[trigger] hooks2[j],
                        i,
                    ) by {
                        if j != k {
                            assert(hooks2[j] == old(self).hooks@[j]);
                            assert(old(self).hooks@[j].state == HookState::Attached || old(self).hooks@[j].state == HookState::Detached);
                        }
                    }
                }
            }
        }
        Ok(())
    }

    /// Installs or removes a batch of hooks as one transaction: every
    /// change is queued — and so validated, with its trampoline built —
    /// before anything is written, and the whole batch takes effect
    /// together or not at all. `changes` holds one (cell, detour) pair per
    /// hook.
    pub fn inline_hooks(
        &mut self,
        enable: bool,
        changes: &Vec<(usize, usize)>,
        threads: &mut Vec<ThreadCtx>,
    ) -> (r: Result<(), DetourError>)
        requires
            old(self).inv(),
            !old(self).tx_open,
        ensures
            final(self).inv(),
            !final(self).tx_open,
            final(self).alloc.program_len == old(self).alloc.program_len,
            match r {
                Ok(()) => {
                    &&& (enable ==> final(self).hooks@.len() == old(self).hooks@.len()
                        + changes@.len() && forall|j: int|
                        0 <= j < changes@.len() ==> {
                            let h = #[trigger] final(self).hooks@[old(self).hooks@.len() + j];
                            &&& h.state == HookState::Attached
                            &&& h.cell == changes@[j].0
                            &&& h.detour == changes@[j].1
                        })
                    &&& (!enable ==> final(self).hooks@.len() == old(self).hooks@.len())
                },
                Err(e) => {
                    &&& final(self).obs() == old(self).obs()
                    &&& e != DetourError::AlreadyOpen && e != DetourError::NotOpen
                },
            },
    {
        if changes.len() == 0 {
            return Err(DetourError::InvalidParameter);
        }
        match self.transaction_begin(true) {
            Ok(()) => {},
            Err(e) => {
                return Err(e);
            },
        }
        let n = changes.len();
        let mut j: usize = 0;
        while j < n
            invariant
                n == changes@.len(),
                j <= n,
                self.inv(),
                self.tx_open,
                self.snap@ == old(self).obs(),
                self.alloc.program_len == old(self).alloc.program_len,
                enable ==> self.hooks@.len() == old(self).hooks@.len() + j && forall|x: int|
                    0 <= x < j ==> {
                        let h = #[trigger] self.hooks@[old(self).hooks@.len() + x];
                        &&& h.state == HookState::PendingAttach
                        &&& h.cell == changes@[x].0
                        &&& h.detour == changes@[x].1
                    },
                !enable ==> self.hooks@.len() == old(self).hooks@.len(),
            decreases n - j,
        {
            let (cell, detour) = changes[j];
            let queued = if enable {
                self.attach(cell, detour)
            } else {
                self.detach(cell, detour)
            };
            match queued {
                Ok(()) => {},
                Err(e) => {
                    match self.transaction_abort() {
                        Ok(()) => {},
                        Err(_) => {},
                    }
                    proof {
                        assert(self.obs().prog =~= old(self).obs().prog);
                    }
                    return Err(e);
                },
            }
            j = j + 1;
        }
        let ghost hooks2 = self.hooks@;
        match self.transaction_commit(threads) {
            Ok(()) => {},
            Err(e) => {
                proof {
                    assert(self.obs().prog =~= old(self).obs().prog);
                }
                return Err(e);
            },
        }
        proof {
            if enable {
                assert forall|x: int|
                    0 <= x < changes@.len() implies {
                    let h = #[trigger] self.hooks@[old(self).hooks@.len() + x];
                    &&& h.state == HookState::Attached
                    &&& h.cell == changes@[x].0
                    &&& h.detour == changes@[x].1
                } by {
                    assert(self.hooks@[old(self).hooks@.len() + x] == committed_hook(
                        hooks2[old(self).hooks@.len() + x],
                    ));
                }
            }
        }
        Ok(())
    }
}

} // verus!
