//! The bootstrap / lifecycle controller: the run-time state machine that,
//! on process attach, loads each real target library, fills the forward
//! table in generator-fixed slot order, and arms exactly one deferred
//! callback; on detach it releases every loaded handle exactly once.
//!
//! The controller only decides. Each decision is returned as a [`Directive`]
//! and the surrounding process performs it (loading a library, resolving a
//! symbol, queueing the callback, terminating the process) and reports the
//! outcome back. Failure to load or resolve is fail-fast: the directive is
//! then `Terminate`, never a partial table.

use vstd::prelude::*;

use crate::generator::TargetPlan;

verus! {

/// Where the proxy stands in its process-load lifecycle.
#[derive(Clone, Copy, PartialEq, Eq, Structural, Debug)]
pub enum LifecycleState {
    Unloaded,
    Attaching,
    Ready,
    Terminated,
}

/// The next outside action the controller asks for.
#[derive(Clone, Copy, PartialEq, Eq, Structural, Debug)]
pub enum Directive {
    /// Load the real library of this target from the trusted directory,
    /// by absolute path, and report the handle (0 on failure).
    LoadTarget { target: usize },
    /// Resolve this target's symbol at this slot in its loaded library and
    /// report the address (0 on failure).
    ResolveSymbol { target: usize, slot: usize },
    /// Queue the injected entrypoint on the current thread's deferred queue,
    /// then report it armed.
    ArmCallback,
    /// Terminate the process immediately.
    Terminate,
    /// Nothing to do.
    Idle,
}

/// The lifecycle controller and the state it owns: the resolution plans,
/// the loaded library handles (never 0 once stored), and the forward table,
/// grown row by row in slot order during attach.
pub struct Bootstrap {
    pub plans: Vec<TargetPlan>,
    pub state: LifecycleState,
    pub init_done: bool,
    pub handles: Vec<u64>,
    pub table: Vec<Vec<u64>>,
    pub armed_count: u64,
}

impl Bootstrap {
    /// Every target's real library has been loaded.
    pub open spec fn loads_done(self) -> bool {
        self.handles@.len() == self.plans@.len()
    }

    /// Every slot of every target's table region holds a resolved address.
    pub open spec fn table_complete(self) -> bool {
        &&& self.table@.len() == self.plans@.len()
        &&& forall|t: int|
            0 <= t < self.table@.len() ==> (#[trigger] self.table@[t])@.len()
                == self.plans@[t]@.symbols.len()
    }

    /// The target whose slot is resolved next.
    pub open spec fn pos_target(self) -> int {
        if self.table@.len() == 0 {
            0
        } else if self.table@.last()@.len() < self.plans@[self.table@.len() - 1]@.symbols.len() {
            self.table@.len() - 1
        } else {
            self.table@.len() as int
        }
    }

    /// The slot resolved next within that target's region.
    pub open spec fn pos_slot(self) -> int {
        if self.table@.len() == 0 {
            0
        } else if self.table@.last()@.len() < self.plans@[self.table@.len() - 1]@.symbols.len() {
            self.table@.last()@.len() as int
        } else {
            0
        }
    }

    /// What the controller asks for in its current state: during attach,
    /// first every load in target order, then every resolution in slot
    /// order, then arming the one callback.
    pub open spec fn next_directive(self) -> Directive {
        if self.state == LifecycleState::Terminated {
            Directive::Terminate
        } else if self.state != LifecycleState::Attaching {
            Directive::Idle
        } else if !self.loads_done() {
            Directive::LoadTarget { target: self.handles@.len() as usize }
        } else if !self.table_complete() {
            Directive::ResolveSymbol {
                target: self.pos_target() as usize,
                slot: self.pos_slot() as usize,
            }
        } else if self.armed_count == 0 {
            Directive::ArmCallback
        } else {
            Directive::Idle
        }
    }

    /// The controller's invariant: handles are loaded in target order and
    /// never 0; the table grows row by row, every finished row full, every
    /// entry nonzero, and only once all loads succeeded; at most one
    /// callback is ever armed, and only once the table is complete; `Ready`
    /// means a complete table and exactly one armed callback; nothing at
    /// all has happened before the one-shot init guard is taken.
    pub open spec fn wf(self) -> bool {
        &&& self.handles@.len() <= self.plans@.len()
        &&& forall|i: int| 0 <= i < self.handles@.len() ==> self.handles@[i] != 0
        &&& self.table@.len() <= self.plans@.len()
        &&& (self.table@.len() > 0 ==> self.loads_done())
        &&& forall|t: int|
            0 <= t < self.table@.len() ==> (#[trigger] self.table@[t])@.len()
                <= self.plans@[t]@.symbols.len()
        &&& forall|t: int|
            0 <= t < self.table@.len() - 1 ==> (#[trigger] self.table@[t])@.len()
                == self.plans@[t]@.symbols.len()
        &&& forall|t: int, s: int|
            0 <= t < self.table@.len() && 0 <= s < self.table@[t]@.len() ==> (#[trigger] self.table@[t]@[s]) != 0
        &&& self.armed_count <= 1
        &&& (self.armed_count == 1 ==> self.table_complete())
        &&& (self.state == LifecycleState::Ready ==> self.init_done && self.armed_count == 1
            && self.table_complete())
        &&& (self.state == LifecycleState::Attaching ==> self.init_done)
        &&& (!self.init_done ==> self.state == LifecycleState::Unloaded && self.handles@.len()
            == 0 && self.table@.len() == 0 && self.armed_count == 0)
        &&& forall|t: int|
            0 <= t < self.plans@.len() ==> (#[trigger] self.plans@[t])@.symbols.len() >= 1
    }

    /// A fresh controller for the generator's resolution plans, before any
    /// lifecycle notification. Every plan has at least one slot, as the
    /// generator guarantees.
    pub fn new(plans: Vec<TargetPlan>) -> (b: Bootstrap)
        requires
            forall|t: int|
                0 <= t < plans@.len() ==> (#[trigger] plans@[t])@.symbols.len() >= 1,
        ensures
            b.wf(),
            b.plans == plans,
            b.state == LifecycleState::Unloaded,
            !b.init_done,
            b.handles@.len() == 0,
            b.table@.len() == 0,
            b.armed_count == 0,
    {
        Bootstrap {
            plans,
            state: LifecycleState::Unloaded,
            init_done: false,
            handles: Vec::new(),
            table: Vec::new(),
            armed_count: 0,
        }
    }

    /// The process-attach notification. Guarded by the one-shot init flag:
    /// a repeated attach changes nothing and asks for nothing. A first
    /// attach without the trusted system directory terminates the process
    /// before anything is loaded; otherwise loading starts at target 0
    /// (or, with no targets at all, the callback is armed directly).
    pub fn on_attach(&mut self, have_system_directory: bool) -> (d: Directive)
        requires
            old(self).wf(),
        ensures
            final(self).wf(),
            final(self).plans == old(self).plans,
            old(self).init_done ==> *final(self) == *old(self) && d == Directive::Idle,
            !old(self).init_done ==> {
                &&& final(self).init_done
                &&& final(self).handles@.len() == 0
                &&& final(self).table@.len() == 0
                &&& final(self).armed_count == 0
                &&& (!have_system_directory ==> final(self).state == LifecycleState::Terminated && d
                    == Directive::Terminate)
                &&& (have_system_directory ==> final(self).state == LifecycleState::Attaching && d
                    == final(self).next_directive() && (final(self).plans@.len() > 0 ==> d
                    == (Directive::LoadTarget { target: 0 })) && (final(self).plans@.len() == 0 ==> d
                    == Directive::ArmCallback))
            },
    {
        if self.init_done {
            return Directive::Idle;
        }
        self.init_done = true;
        if !have_system_directory {
            self.state = LifecycleState::Terminated;
            return Directive::Terminate;
        }
        self.state = LifecycleState::Attaching;
        if self.plans.len() > 0 {
            Directive::LoadTarget { target: 0 }
        } else {
            Directive::ArmCallback
        }
    }

    /// The outcome of a directed load, in target order. A null handle is
    /// fail-fast: the directive becomes `Terminate` while the table is
    /// still empty and no callback has been armed. A real handle is stored
    /// and the next load — or, after the last, the first resolution — is
    /// asked for.
    pub fn on_load_result(&mut self, handle: u64) -> (d: Directive)
        requires
            old(self).wf(),
            old(self).state == LifecycleState::Attaching,
            old(self).handles@.len() < old(self).plans@.len(),
        ensures
            final(self).wf(),
            final(self).plans == old(self).plans,
            final(self).init_done == old(self).init_done,
            final(self).armed_count == old(self).armed_count,
            final(self).table == old(self).table,
            final(self).armed_count == 0,
            final(self).table@.len() == 0,
            handle == 0 ==> final(self).state == LifecycleState::Terminated && d == Directive::Terminate
                && final(self).handles == old(self).handles,
            handle != 0 ==> {
                &&& final(self).state == LifecycleState::Attaching
                &&& final(self).handles@ == old(self).handles@.push(handle)
                &&& d == final(self).next_directive()
                &&& (final(self).handles@.len() < final(self).plans@.len() ==> d == (Directive::LoadTarget {
                    target: final(self).handles@.len() as usize,
                }))
                &&& (final(self).handles@.len() == final(self).plans@.len() ==> d
                    == (Directive::ResolveSymbol { target: 0, slot: 0 }))
            },
    {
        proof {
            assert(self.table@.len() == 0);
            assert(!self.table_complete());
            assert(self.armed_count == 0);
        }
        if handle == 0 {
            self.state = LifecycleState::Terminated;
            return Directive::Terminate;
        }
        self.handles.push(handle);
        if self.handles.len() < self.plans.len() {
            Directive::LoadTarget { target: self.handles.len() }
        } else {
            Directive::ResolveSymbol { target: 0, slot: 0 }
        }
    }

    /// The outcome of a directed symbol resolution, in generator-fixed slot
    /// order. A null address is fail-fast: the directive becomes
    /// `Terminate` with no callback armed. A real address is stored at the
    /// asked-for slot; once every slot of every target is filled — and
    /// never earlier — the one callback is asked to be armed.
    pub fn on_resolve_result(&mut self, addr: u64) -> (d: Directive)
        requires
            old(self).wf(),
            old(self).state == LifecycleState::Attaching,
            old(self).loads_done(),
            !old(self).table_complete(),
        ensures
            final(self).wf(),
            final(self).plans == old(self).plans,
            final(self).handles == old(self).handles,
            final(self).init_done == old(self).init_done,
            final(self).armed_count == old(self).armed_count,
            final(self).armed_count == 0,
            addr == 0 ==> final(self).state == LifecycleState::Terminated && d == Directive::Terminate
                && final(self).table == old(self).table,
            addr != 0 ==> {
                let t = old(self).pos_target();
                let s = old(self).pos_slot();
                &&& final(self).state == LifecycleState::Attaching
                &&& d == final(self).next_directive()
                &&& final(self).table@.len() == t + 1
                &&& (forall|u: int| 0 <= u < t ==> final(self).table@[u] == old(self).table@[u])
                &&& final(self).table@[t]@ == (if s == 0 {
                    seq![addr]
                } else {
                    old(self).table@[t]@.push(addr)
                })
                &&& final(self).table@[t]@[s] == addr
                &&& (final(self).table_complete() ==> d == Directive::ArmCallback)
                &&& (!final(self).table_complete() ==> d == (Directive::ResolveSymbol {
                    target: final(self).pos_target() as usize,
                    slot: final(self).pos_slot() as usize,
                }))
            },
    {
        proof {
            assert(self.armed_count == 0);
        }
        if addr == 0 {
            self.state = LifecycleState::Terminated;
            return Directive::Terminate;
        }
        let tl = self.table.len();
        if tl == 0 {
            let mut row: Vec<u64> = Vec::new();
            row.push(addr);
            self.table.push(row);
        } else {
            let row_len = self.table[tl - 1].len();
            if row_len < self.plans[tl - 1].symbols.len() {
                let mut row = self.table.pop().unwrap();
                row.push(addr);
                self.table.push(row);
                proof {
                    assert(self.table@[tl - 1 as int]@ == old(self).table@[tl - 1 as int]@.push(
                        addr,
                    ));
                    assert(forall|u: int|
                        0 <= u < tl - 1 ==> self.table@[u] == old(self).table@[u]);
                }
            } else {
                let mut row: Vec<u64> = Vec::new();
                row.push(addr);
                self.table.push(row);
            }
        }
        let tl2 = self.table.len();
        let last_full = self.table[tl2 - 1].len() == self.plans[tl2 - 1].symbols.len();
        if tl2 == self.plans.len() && last_full {
            proof {
                assert(self.table_complete());
            }
            Directive::ArmCallback
        } else {
            proof {
                assert(!self.table_complete());
            }
            if last_full {
                Directive::ResolveSymbol { target: tl2, slot: 0 }
            } else {
                let sl = self.table[tl2 - 1].len();
                Directive::ResolveSymbol { target: tl2 - 1, slot: sl }
            }
        }
    }

    /// The callback has been queued. This happens exactly once per attach:
    /// the controller moves to `Ready` holding a complete table and an
    /// armed count of exactly one — never zero, never more.
    pub fn on_callback_armed(&mut self) -> (d: Directive)
        requires
            old(self).wf(),
            old(self).state == LifecycleState::Attaching,
            old(self).loads_done(),
            old(self).table_complete(),
            old(self).armed_count == 0,
        ensures
            final(self).wf(),
            final(self).plans == old(self).plans,
            final(self).handles == old(self).handles,
            final(self).table == old(self).table,
            final(self).init_done == old(self).init_done,
            final(self).armed_count == 1,
            final(self).state == LifecycleState::Ready,
            d == Directive::Idle,
    {
        self.armed_count = 1;
        self.state = LifecycleState::Ready;
        Directive::Idle
    }

    /// The process-detach notification: hands back every loaded handle, in
    /// load order and each exactly once, for the process to release, and
    /// returns to `Unloaded`. When no attach ever happened — or on a second
    /// detach — there is nothing to release and the call is a no-op on the
    /// handle set.
    pub fn on_detach(&mut self) -> (freed: Vec<u64>)
        requires
            old(self).wf(),
        ensures
            final(self).wf(),
            final(self).plans == old(self).plans,
            final(self).init_done == old(self).init_done,
            freed@ == old(self).handles@,
            forall|i: int| 0 <= i < freed@.len() ==> freed@[i] != 0,
            final(self).handles@.len() == 0,
            final(self).table@.len() == 0,
            final(self).armed_count == 0,
            final(self).state == LifecycleState::Unloaded,
    {
        let mut freed: Vec<u64> = Vec::new();
        let mut i: usize = 0;
        while i < self.handles.len()
            invariant
                i <= self.handles@.len(),
                self.handles == old(self).handles,
                self == old(self),
                freed@ == self.handles@.take(i as int),
            decreases self.handles@.len() - i,
        {
            freed.push(self.handles[i]);
            i += 1;
        }
        proof {
            assert(self.handles@.take(self.handles@.len() as int) =~= self.handles@);
        }
        self.handles = Vec::new();
        self.table = Vec::new();
        self.armed_count = 0;
        self.state = LifecycleState::Unloaded;
        freed
    }
}

/// Once the controller is `Ready`, attach armed exactly one deferred
/// callback — never zero, never more — and only after every slot of every
/// target's table region was filled with a nonzero resolved address.
pub proof fn lemma_ready_armed_once(b: Bootstrap)
    requires
        b.wf(),
        b.state == LifecycleState::Ready,
    ensures
        b.armed_count == 1,
        b.table_complete(),
        forall|t: int, s: int|
            0 <= t < b.table@.len() && 0 <= s < b.table@[t]@.len() ==> (#[trigger] b.table@[t]@[s])
                != 0,
{
}

} // verus!
