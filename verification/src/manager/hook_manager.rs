//! Lifecycle hook manager.
//!
//! Hooks are registered against one of the `ToolHookEvent` variants and invoked in priority
//! order (highest first), those of one priority in the order of their registration. A hook
//! can be one-shot or guarded. Calling guards and callbacks is left to the runtime: it walks
//! the list that `begin_emit` gives, asks `hook_runs` of each hook, and hands the hooks that
//! ran to `complete_emit`.
use vstd::prelude::*;

use crate::types::callback_for;
use crate::types::HookRegistrationOptions;
use crate::types::ToolHookCallbacks;
use crate::types::ToolHookEvent;

verus! {

/// A registered hook.
#[derive(Debug, Clone, Copy, PartialEq, Eq, Structural)]
pub struct HookEntry {
    /// The number of the callback.
    pub callback: u64,
    /// Registration options.
    pub options: HookRegistrationOptions,
    /// The number of the registration.
    pub serial: u64,
}

/// One hook goes before another: its priority is higher, or the same and it was registered
/// first.
pub open spec fn goes_before(a: HookEntry, b: HookEntry) -> bool {
    a.options.priority > b.options.priority || (a.options.priority == b.options.priority && a.serial
        < b.serial)
}

/// The hooks stand in the order in which they run.
pub open spec fn in_running_order(v: Seq<HookEntry>) -> bool {
    forall|i: int, j: int| 0 <= i < j < v.len() ==> goes_before(#[trigger] v[i], #[trigger] v[j])
}

/// All registrations of the list came before this number.
pub open spec fn registered_before(v: Seq<HookEntry>, n: nat) -> bool {
    forall|i: int| 0 <= i < v.len() ==> (#[trigger] v[i]).serial < n
}

/// The list with a new hook in its place: before the first hook of a lower priority.
pub open spec fn with_hook(v: Seq<HookEntry>, e: HookEntry) -> Seq<HookEntry>
    decreases v.len(),
{
    if v.len() == 0 {
        seq![e]
    } else if v[0].options.priority < e.options.priority {
        seq![e] + v
    } else {
        seq![v[0]] + with_hook(v.skip(1), e)
    }
}

/// The list without the first hook that has this callback.
pub open spec fn without_callback(v: Seq<HookEntry>, callback: u64) -> Seq<HookEntry>
    decreases v.len(),
{
    if v.len() == 0 {
        v
    } else if v[0].callback == callback {
        v.skip(1)
    } else {
        seq![v[0]] + without_callback(v.skip(1), callback)
    }
}

/// The hook stays after an event on which these registrations ran.
pub open spec fn stays(e: HookEntry, ran: Seq<u64>) -> bool {
    !(e.options.once && ran.contains(e.serial))
}

/// The hook runs, given what its guard says.
pub open spec fn runs(e: HookEntry, guard: Option<bool>) -> bool {
    e.options.condition is None || guard == Some(true)
}

/// Whether a hook runs. `guard` is what its guard says, where it has one.
pub fn hook_runs(e: &HookEntry, guard: Option<bool>) -> (r: bool)
    ensures
        r == runs(*e, guard),
{
    match e.options.condition {
        None => true,
        Some(_) => match guard {
            Some(b) => b,
            None => false,
        },
    }
}

/// The number of an event among all.
pub open spec fn event_index(e: ToolHookEvent) -> int {
    match e {
        ToolHookEvent::BeforeExecute => 0,
        ToolHookEvent::AfterExecute => 1,
        ToolHookEvent::OnError => 2,
        ToolHookEvent::OnRetry => 3,
        ToolHookEvent::OnTimeout => 4,
        ToolHookEvent::OnRegister => 5,
        ToolHookEvent::OnUnregister => 6,
        ToolHookEvent::OnPackageRegister => 7,
        ToolHookEvent::OnPackageUnregister => 8,
        ToolHookEvent::OnConfigChange => 9,
        ToolHookEvent::OnDestroy => 10,
    }
}

fn index_of(e: ToolHookEvent) -> (r: usize)
    ensures
        r as int == event_index(e),
        r < 11,
{
    match e {
        ToolHookEvent::BeforeExecute => 0,
        ToolHookEvent::AfterExecute => 1,
        ToolHookEvent::OnError => 2,
        ToolHookEvent::OnRetry => 3,
        ToolHookEvent::OnTimeout => 4,
        ToolHookEvent::OnRegister => 5,
        ToolHookEvent::OnUnregister => 6,
        ToolHookEvent::OnPackageRegister => 7,
        ToolHookEvent::OnPackageUnregister => 8,
        ToolHookEvent::OnConfigChange => 9,
        ToolHookEvent::OnDestroy => 10,
    }
}

/// Hook manager.
#[derive(Debug)]
pub struct HookManagerImpl {
    hooks: Vec<Vec<HookEntry>>,
    next: u64,
}

impl HookManagerImpl {
    /// The hooks for an event, in the order in which they run.
    pub closed spec fn hooks_for(&self, e: ToolHookEvent) -> Seq<HookEntry> {
        self.hooks@[event_index(e)]@
    }

    /// How many hooks have ever been registered.
    pub closed spec fn registered(&self) -> nat {
        self.next as nat
    }

    /// The hooks of every event stand in running order, and each has a number of its own.
    pub closed spec fn wf(&self) -> bool {
        self.hooks@.len() == 11 && forall|k: int|
            0 <= k < 11 ==> in_running_order((#[trigger] self.hooks@[k])@) && registered_before(
                self.hooks@[k]@,
                self.next as nat,
            )
    }

    /// Construct an empty hook manager.
    pub fn new() -> (r: Self)
        ensures
            r.wf(),
            r.registered() == 0,
            forall|e: ToolHookEvent| #[trigger] r.hooks_for(e) == Seq::<HookEntry>::empty(),
    {
        let mut hooks: Vec<Vec<HookEntry>> = Vec::new();
        let mut i: usize = 0;
        while i < 11
            invariant
                i <= 11,
                hooks@.len() == i,
                forall|k: int| 0 <= k < i ==> (#[trigger] hooks@[k])@ == Seq::<HookEntry>::empty(),
            decreases 11 - i,
        {
            hooks.push(Vec::new());
            i = i + 1;
        }
        let r = HookManagerImpl { hooks, next: 0 };
        assert forall|e: ToolHookEvent| #[trigger] r.hooks_for(e) == Seq::<HookEntry>::empty() by {
            assert(hooks@[event_index(e)]@ == Seq::<HookEntry>::empty());
        }
        r
    }

    /// Register a hook for the given event.
    pub fn on(&mut self, event: ToolHookEvent, callback: u64)
        requires
            old(self).wf(),
            old(self).registered() < u64::MAX,
        ensures
            final(self).wf(),
            final(self).registered() == old(self).registered() + 1,
            final(self).hooks_for(event) == with_hook(
                old(self).hooks_for(event),
                HookEntry {
                    callback,
                    options: HookRegistrationOptions {
                        priority: 0,
                        once: false,
                        condition: None,
                    },
                    serial: old(self).registered() as u64,
                },
            ),
            forall|e: ToolHookEvent|
                e != event ==> #[trigger] final(self).hooks_for(e) == old(self).hooks_for(e),
    {
        let options = HookRegistrationOptions::default();
        self.on_with_options(event, callback, options);
    }

    /// Register a hook with extra options (priority / once / condition).
    pub fn on_with_options(
        &mut self,
        event: ToolHookEvent,
        callback: u64,
        options: HookRegistrationOptions,
    )
        requires
            old(self).wf(),
            old(self).registered() < u64::MAX,
        ensures
            final(self).wf(),
            final(self).registered() == old(self).registered() + 1,
            final(self).hooks_for(event) == with_hook(
                old(self).hooks_for(event),
                HookEntry { callback, options, serial: old(self).registered() as u64 },
            ),
            forall|e: ToolHookEvent|
                e != event ==> #[trigger] final(self).hooks_for(e) == old(self).hooks_for(e),
    {
        let k = index_of(event);
        let e = HookEntry { callback, options, serial: self.next };
        let ghost before = self.hooks@[k as int]@;
        let n = self.hooks[k].len();
        let mut pos: usize = 0;
        while pos < n && self.hooks[k][pos].options.priority >= options.priority
            invariant
                pos <= n,
                k < 11,
                self.hooks@.len() == 11,
                n == before.len(),
                before == self.hooks@[k as int]@,
                forall|i: int|
                    0 <= i < pos ==> (#[trigger] before[i]).options.priority >= options.priority,
            decreases n - pos,
        {
            pos = pos + 1;
        }
        proof {
            lemma_with_hook(before, pos as int, e);
        }
        self.hooks[k].insert(pos, e);
        self.next = self.next + 1;
        proof {
            assert(self.hooks@[k as int]@ =~= before.insert(pos as int, e));
            lemma_insert_ordered(before, pos as int, e);
            assert forall|i: int| 0 <= i < 11 implies in_running_order((#[trigger] self.hooks@[i])@)
                && registered_before(self.hooks@[i]@, self.next as nat) by {
                if i != k {
                    assert(self.hooks@[i] == old(self).hooks@[i]);
                }
            }
        }
    }

    /// Unregister a specific callback (or all callbacks for the event when `None`).
    pub fn off(&mut self, event: ToolHookEvent, callback: Option<u64>)
        requires
            old(self).wf(),
        ensures
            final(self).wf(),
            final(self).registered() == old(self).registered(),
            final(self).hooks_for(event) == match callback {
                None => Seq::empty(),
                Some(cb) => without_callback(old(self).hooks_for(event), cb),
            },
            forall|e: ToolHookEvent|
                e != event ==> #[trigger] final(self).hooks_for(e) == old(self).hooks_for(e),
    {
        let k = index_of(event);
        match callback {
            None => self.clear_hooks_for_event(event),
            Some(cb) => {
                let ghost before = self.hooks@[k as int]@;
                let n = self.hooks[k].len();
                let mut pos: usize = 0;
                while pos < n && self.hooks[k][pos].callback != cb
                    invariant
                        pos <= n,
                        k < 11,
                        self.hooks@.len() == 11,
                        n == before.len(),
                        before == self.hooks@[k as int]@,
                        forall|i: int| 0 <= i < pos ==> (#[trigger] before[i]).callback != cb,
                    decreases n - pos,
                {
                    pos = pos + 1;
                }
                proof {
                    lemma_without_callback(before, pos as int, cb);
                }
                if pos < n {
                    self.hooks[k].remove(pos);
                    assert(self.hooks@[k as int]@ =~= before.remove(pos as int));
                }
                proof {
                    lemma_remove_ordered(before, pos as int);
                    assert forall|i: int| 0 <= i < 11 implies in_running_order(
                        (#[trigger] self.hooks@[i])@,
                    ) && registered_before(self.hooks@[i]@, self.next as nat) by {
                        if i != k {
                            assert(self.hooks@[i] == old(self).hooks@[i]);
                        }
                    }
                }
            },
        }
    }

    /// Remove every hook for a single event.
    pub fn clear_hooks_for_event(&mut self, event: ToolHookEvent)
        requires
            old(self).wf(),
        ensures
            final(self).wf(),
            final(self).registered() == old(self).registered(),
            final(self).hooks_for(event) == Seq::<HookEntry>::empty(),
            forall|e: ToolHookEvent|
                e != event ==> #[trigger] final(self).hooks_for(e) == old(self).hooks_for(e),
    {
        let k = index_of(event);
        self.hooks.set(k, Vec::new());
        proof {
            assert(self.hooks@[k as int]@ =~= Seq::<HookEntry>::empty());
            assert forall|i: int| 0 <= i < 11 implies in_running_order((#[trigger] self.hooks@[i])@)
                && registered_before(self.hooks@[i]@, self.next as nat) by {
                if i != k {
                    assert(self.hooks@[i] == old(self).hooks@[i]);
                }
            }
        }
    }

    /// Remove every hook for every event.
    pub fn clear_hooks(&mut self)
        requires
            old(self).wf(),
        ensures
            final(self).wf(),
            final(self).registered() == old(self).registered(),
            forall|e: ToolHookEvent|
                #[trigger] final(self).hooks_for(e) == Seq::<HookEntry>::empty(),
    {
        let fresh = HookManagerImpl::new();
        let next = self.next;
        let ghost bare = fresh;
        self.hooks = fresh.hooks;
        proof {
            assert forall|e: ToolHookEvent| #[trigger] self.hooks_for(e) == Seq::<
                HookEntry,
            >::empty() by {
                assert(bare.hooks_for(e) == Seq::<HookEntry>::empty());
            }
            assert forall|i: int| 0 <= i < 11 implies in_running_order((#[trigger] self.hooks@[i])@)
                && registered_before(self.hooks@[i]@, self.next as nat) by {
                assert(registered_before(bare.hooks@[i]@, bare.next as nat));
            }
        }
    }

    /// List the callbacks for an event.
    pub fn get_hooks(&self, event: ToolHookEvent) -> (r: Vec<u64>)
        requires
            self.wf(),
        ensures
            r@ == self.hooks_for(event).map_values(|e: HookEntry| e.callback),
    {
        let k = index_of(event);
        let mut out: Vec<u64> = Vec::new();
        let mut i: usize = 0;
        let n = self.hooks[k].len();
        while i < n
            invariant
                i <= n,
                k < 11,
                self.hooks@.len() == 11,
                n == self.hooks@[k as int]@.len(),
                out@.len() == i,
                forall|j: int|
                    0 <= j < i ==> #[trigger] out@[j] == self.hooks@[k as int]@[j].callback,
            decreases n - i,
        {
            out.push(self.hooks[k][i].callback);
            i = i + 1;
        }
        assert(out@ =~= self.hooks_for(event).map_values(|e: HookEntry| e.callback));
        out
    }

    /// Whether any hook is registered for the event.
    pub fn has_hooks(&self, event: ToolHookEvent) -> (r: bool)
        requires
            self.wf(),
        ensures
            r == (self.hooks_for(event).len() > 0),
    {
        let k = index_of(event);
        self.hooks[k].len() > 0
    }

    /// The hooks that an event concerns, in the order in which they run.
    pub fn begin_emit(&self, event: ToolHookEvent) -> (r: Vec<HookEntry>)
        requires
            self.wf(),
        ensures
            r@ == self.hooks_for(event),
    {
        let k = index_of(event);
        let mut out: Vec<HookEntry> = Vec::new();
        let mut i: usize = 0;
        let n = self.hooks[k].len();
        while i < n
            invariant
                i <= n,
                k < 11,
                self.hooks@.len() == 11,
                n == self.hooks@[k as int]@.len(),
                out@ == self.hooks@[k as int]@.take(i as int),
            decreases n - i,
        {
            out.push(self.hooks[k][i]);
            assert(self.hooks@[k as int]@.take(i + 1) =~= self.hooks@[k as int]@.take(
                i as int,
            ).push(self.hooks@[k as int]@[i as int]));
            i = i + 1;
        }
        assert(self.hooks@[k as int]@.take(n as int) =~= self.hooks@[k as int]@);
        out
    }

    /// Ends an event on which the hooks of these registrations ran: of those, the one-shot
    /// hooks are gone. A hook that was skipped, or registered meanwhile, stays.
    pub fn complete_emit(&mut self, event: ToolHookEvent, ran: &Vec<u64>)
        requires
            old(self).wf(),
        ensures
            final(self).wf(),
            final(self).registered() == old(self).registered(),
            final(self).hooks_for(event) == old(self).hooks_for(event).filter(
                |e: HookEntry| stays(e, ran@),
            ),
            forall|e: ToolHookEvent|
                e != event ==> #[trigger] final(self).hooks_for(e) == old(self).hooks_for(e),
    {
        let k = index_of(event);
        let ghost before = self.hooks@[k as int]@;
        let ghost p = |e: HookEntry| stays(e, ran@);
        let mut out: Vec<HookEntry> = Vec::new();
        let n = self.hooks[k].len();
        let mut i: usize = 0;
        assert(before.take(0).filter(p) =~= Seq::<HookEntry>::empty()) by {
            reveal(Seq::filter);
        }
        while i < n
            invariant
                i <= n,
                k < 11,
                self.hooks@.len() == 11,
                n == before.len(),
                before == self.hooks@[k as int]@,
                p == (|e: HookEntry| stays(e, ran@)),
                out@ == before.take(i as int).filter(p),
            decreases n - i,
        {
            let e = self.hooks[k][i];
            proof {
                assert(before.take(i + 1) =~= before.take(i as int).push(before[i as int]));
                before.take(i as int).lemma_filter_push(before[i as int], p);
            }
            if !(e.options.once && has_number(ran, e.serial)) {
                out.push(e);
            }
            i = i + 1;
        }
        assert(before.take(n as int) =~= before);
        self.hooks.set(k, out);
        proof {
            lemma_filter_ordered(before, p, self.next as nat);
            assert forall|i: int| 0 <= i < 11 implies in_running_order((#[trigger] self.hooks@[i])@)
                && registered_before(self.hooks@[i]@, self.next as nat) by {
                if i != k {
                    assert(self.hooks@[i] == old(self).hooks@[i]);
                }
            }
        }
    }

    fn on_some(&mut self, event: ToolHookEvent, callback: Option<u64>)
        requires
            old(self).wf(),
            old(self).registered() < u64::MAX,
        ensures
            final(self).wf(),
            final(self).registered() == old(self).registered() + if callback is Some {
                1nat
            } else {
                0
            },
            final(self).hooks_for(event) == match callback {
                Some(cb) => with_hook(
                    old(self).hooks_for(event),
                    HookEntry {
                        callback: cb,
                        options: HookRegistrationOptions {
                            priority: 0,
                            once: false,
                            condition: None,
                        },
                        serial: old(self).registered() as u64,
                    },
                ),
                None => old(self).hooks_for(event),
            },
            forall|e: ToolHookEvent|
                e != event ==> #[trigger] final(self).hooks_for(e) == old(self).hooks_for(e),
    {
        if let Some(cb) = callback {
            self.on(event, cb);
        }
    }
}

impl Default for HookManagerImpl {
    fn default() -> (r: Self)
        ensures
            r.wf(),
            r.registered() == 0,
            forall|e: ToolHookEvent| #[trigger] r.hooks_for(e) == Seq::<HookEntry>::empty(),
    {
        HookManagerImpl::new()
    }
}

fn has_number(v: &Vec<u64>, n: u64) -> (r: bool)
    ensures
        r == v@.contains(n),
{
    let mut i: usize = 0;
    while i < v.len()
        invariant
            i <= v@.len(),
            forall|k: int| 0 <= k < i ==> #[trigger] v@[k] != n,
        decreases v@.len() - i,
    {
        if v[i] == n {
            assert(v@[i as int] == n);
            return true;
        }
        i = i + 1;
    }
    false
}

proof fn lemma_with_hook(v: Seq<HookEntry>, pos: int, e: HookEntry)
    requires
        0 <= pos <= v.len(),
        forall|i: int| 0 <= i < pos ==> (#[trigger] v[i]).options.priority >= e.options.priority,
        pos < v.len() ==> v[pos].options.priority < e.options.priority,
    ensures
        with_hook(v, e) == v.insert(pos, e),
    decreases v.len(),
{
    if v.len() == 0 {
        assert(v.insert(0, e) =~= seq![e]);
    } else if v[0].options.priority < e.options.priority {
        assert(pos == 0);
        assert(v.insert(0, e) =~= seq![e] + v);
    } else {
        assert forall|i: int| 0 <= i < pos - 1 implies (#[trigger] v.skip(1)[i]).options.priority
            >= e.options.priority by {
            assert(v[i + 1].options.priority >= e.options.priority);
        }
        lemma_with_hook(v.skip(1), pos - 1, e);
        assert(v.insert(pos, e) =~= seq![v[0]] + v.skip(1).insert(pos - 1, e));
    }
}

proof fn lemma_insert_ordered(v: Seq<HookEntry>, pos: int, e: HookEntry)
    requires
        0 <= pos <= v.len(),
        in_running_order(v),
        registered_before(v, e.serial as nat),
        forall|i: int| 0 <= i < pos ==> (#[trigger] v[i]).options.priority >= e.options.priority,
        pos < v.len() ==> v[pos].options.priority < e.options.priority,
    ensures
        in_running_order(v.insert(pos, e)),
        registered_before(v.insert(pos, e), (e.serial + 1) as nat),
{
    let w = v.insert(pos, e);
    assert forall|i: int, j: int| 0 <= i < j < w.len() implies goes_before(
        #[trigger] w[i],
        #[trigger] w[j],
    ) by {
        let a = if i < pos {
            i
        } else {
            i - 1
        };
        let b = if j < pos {
            j
        } else {
            j - 1
        };
        if i == pos {
            assert(w[j] == v[b]);
            if b > pos {
                assert(goes_before(v[pos], v[b]));
            }
        } else if j == pos {
            assert(w[i] == v[i]);
        } else {
            assert(w[i] == v[a] && w[j] == v[b]);
            assert(goes_before(v[a], v[b]));
        }
    }
    assert forall|i: int| 0 <= i < w.len() implies (#[trigger] w[i]).serial < e.serial + 1 by {
        if i < pos {
            assert(w[i] == v[i]);
        } else if i > pos {
            assert(w[i] == v[i - 1]);
        }
    }
}

proof fn lemma_without_callback(v: Seq<HookEntry>, pos: int, callback: u64)
    requires
        0 <= pos <= v.len(),
        forall|i: int| 0 <= i < pos ==> (#[trigger] v[i]).callback != callback,
        pos < v.len() ==> v[pos].callback == callback,
    ensures
        without_callback(v, callback) == if pos < v.len() {
            v.remove(pos)
        } else {
            v
        },
    decreases v.len(),
{
    if v.len() > 0 {
        if v[0].callback == callback {
            assert(pos == 0);
            assert(v.remove(0) =~= v.skip(1));
        } else {
            assert forall|i: int| 0 <= i < pos - 1 implies (#[trigger] v.skip(1)[i]).callback
                != callback by {
                assert(v[i + 1].callback != callback);
            }
            lemma_without_callback(v.skip(1), pos - 1, callback);
            if pos < v.len() {
                assert(v.remove(pos) =~= seq![v[0]] + v.skip(1).remove(pos - 1));
            } else {
                assert(v =~= seq![v[0]] + v.skip(1));
            }
        }
    }
}

proof fn lemma_remove_ordered(v: Seq<HookEntry>, pos: int)
    requires
        in_running_order(v),
    ensures
        0 <= pos < v.len() ==> in_running_order(v.remove(pos)),
        0 <= pos < v.len() ==> forall|n: nat|
            registered_before(v, n) ==> #[trigger] registered_before(v.remove(pos), n),
{
    if 0 <= pos < v.len() {
        let w = v.remove(pos);
        assert forall|i: int, j: int| 0 <= i < j < w.len() implies goes_before(
            #[trigger] w[i],
            #[trigger] w[j],
        ) by {
            let a = if i < pos {
                i
            } else {
                i + 1
            };
            let b = if j < pos {
                j
            } else {
                j + 1
            };
            assert(w[i] == v[a] && w[j] == v[b]);
            assert(goes_before(v[a], v[b]));
        }
        assert forall|n: nat| registered_before(v, n) implies #[trigger] registered_before(w, n) by {
            assert forall|i: int| 0 <= i < w.len() implies (#[trigger] w[i]).serial < n by {
                let a = if i < pos {
                    i
                } else {
                    i + 1
                };
                assert(w[i] == v[a]);
            }
        }
    }
}

proof fn lemma_filter_ordered(v: Seq<HookEntry>, p: spec_fn(HookEntry) -> bool, n: nat)
    requires
        in_running_order(v),
        registered_before(v, n),
    ensures
        in_running_order(v.filter(p)),
        registered_before(v.filter(p), n),
        forall|i: int|
            0 <= i < v.filter(p).len() ==> exists|j: int|
                0 <= j < v.len() && v[j] == (#[trigger] v.filter(p)[i]),
    decreases v.len(),
{
    reveal(Seq::filter);
    if v.len() > 0 {
        let rest = v.drop_last();
        assert forall|i: int, j: int| 0 <= i < j < rest.len() implies goes_before(
            #[trigger] rest[i],
            #[trigger] rest[j],
        ) by {
            assert(goes_before(v[i], v[j]));
        }
        assert forall|i: int| 0 <= i < rest.len() implies (#[trigger] rest[i]).serial < n by {
            assert(v[i].serial < n);
        }
        lemma_filter_ordered(rest, p, n);
        let f = rest.filter(p);
        let w = v.filter(p);
        assert forall|i: int| 0 <= i < w.len() implies exists|j: int|
            0 <= j < v.len() && v[j] == (#[trigger] w[i]) by {
            if i < f.len() {
                let j = choose|j: int| 0 <= j < rest.len() && rest[j] == f[i];
                assert(v[j] == w[i]);
            } else {
                assert(v[v.len() - 1] == w[i]);
            }
        }
        assert forall|i: int, j: int| 0 <= i < j < w.len() implies goes_before(
            #[trigger] w[i],
            #[trigger] w[j],
        ) by {
            if j < f.len() {
                assert(w[i] == f[i] && w[j] == f[j]);
            } else {
                let a = choose|a: int| 0 <= a < rest.len() && rest[a] == f[i];
                assert(w[i] == v[a]);
                assert(w[j] == v[v.len() - 1]);
                assert(goes_before(v[a], v[v.len() - 1]));
            }
        }
    }
}

/// The hook that registering a callback without options gives.
pub open spec fn plain_hook(callback: u64, serial: u64) -> HookEntry {
    HookEntry {
        callback,
        options: HookRegistrationOptions { priority: 0, once: false, condition: None },
        serial,
    }
}

/// The hooks of an event after a batch of callbacks was registered: one more where the batch
/// has a callback for the event, under a number that the batch used up.
pub open spec fn batch_registered(
    before: Seq<HookEntry>,
    after: Seq<HookEntry>,
    callback: Option<u64>,
    first: nat,
    end: nat,
) -> bool {
    match callback {
        None => after == before,
        Some(cb) => exists|serial: u64|
            first <= serial < end && after == with_hook(before, #[trigger] plain_hook(cb, serial)),
    }
}

impl HookManagerImpl {
    /// Register a batch of callbacks at once.
    pub fn register_callbacks(&mut self, callbacks: ToolHookCallbacks)
        requires
            old(self).wf(),
            old(self).registered() + 11 <= u64::MAX,
        ensures
            final(self).wf(),
            final(self).registered() <= old(self).registered() + 11,
            forall|e: ToolHookEvent|
                batch_registered(
                    old(self).hooks_for(e),
                    #[trigger] final(self).hooks_for(e),
                    callback_for(callbacks, e),
                    old(self).registered(),
                    final(self).registered(),
                ),
    {
        let ghost s0 = *self;
        self.on_some(ToolHookEvent::BeforeExecute, callbacks.before_execute);
        let ghost s1 = *self;
        self.on_some(ToolHookEvent::AfterExecute, callbacks.after_execute);
        let ghost s2 = *self;
        self.on_some(ToolHookEvent::OnError, callbacks.on_error);
        let ghost s3 = *self;
        self.on_some(ToolHookEvent::OnRetry, callbacks.on_retry);
        let ghost s4 = *self;
        self.on_some(ToolHookEvent::OnTimeout, callbacks.on_timeout);
        let ghost s5 = *self;
        self.on_some(ToolHookEvent::OnRegister, callbacks.on_register);
        let ghost s6 = *self;
        self.on_some(ToolHookEvent::OnUnregister, callbacks.on_unregister);
        let ghost s7 = *self;
        self.on_some(ToolHookEvent::OnPackageRegister, callbacks.on_package_register);
        let ghost s8 = *self;
        self.on_some(ToolHookEvent::OnPackageUnregister, callbacks.on_package_unregister);
        let ghost s9 = *self;
        self.on_some(ToolHookEvent::OnConfigChange, callbacks.on_config_change);
        let ghost s10 = *self;
        self.on_some(ToolHookEvent::OnDestroy, callbacks.on_destroy);
        let ghost s11 = *self;
        proof {
            assert forall|e: ToolHookEvent|
                batch_registered(
                    s0.hooks_for(e),
                    #[trigger] s11.hooks_for(e),
                    callback_for(callbacks, e),
                    s0.registered(),
                    s11.registered(),
                ) by {
                let s = match e {
                    ToolHookEvent::BeforeExecute => s0,
                    ToolHookEvent::AfterExecute => s1,
                    ToolHookEvent::OnError => s2,
                    ToolHookEvent::OnRetry => s3,
                    ToolHookEvent::OnTimeout => s4,
                    ToolHookEvent::OnRegister => s5,
                    ToolHookEvent::OnUnregister => s6,
                    ToolHookEvent::OnPackageRegister => s7,
                    ToolHookEvent::OnPackageUnregister => s8,
                    ToolHookEvent::OnConfigChange => s9,
                    ToolHookEvent::OnDestroy => s10,
                };
                if let Some(cb) = callback_for(callbacks, e) {
                    let serial = s.registered() as u64;
                    assert(s11.hooks_for(e) == with_hook(
                        s0.hooks_for(e),
                        plain_hook(cb, serial),
                    ));
                }
            }
        }
    }
}

/// At all times the hooks of an event stand in the order in which they run: a higher priority
/// first, and hooks of one priority in the order of their registration.
pub proof fn law_running_order(m: HookManagerImpl, event: ToolHookEvent)
    requires
        m.wf(),
    ensures
        in_running_order(m.hooks_for(event)),
{
    assert(in_running_order(m.hooks@[event_index(event)]@));
}

/// Unregistering a callback that was just registered, and not before, leaves the hooks as
/// they were.
pub proof fn law_off_undoes_on(v: Seq<HookEntry>, e: HookEntry)
    requires
        forall|i: int| 0 <= i < v.len() ==> (#[trigger] v[i]).callback != e.callback,
    ensures
        without_callback(with_hook(v, e), e.callback) == v,
    decreases v.len(),
{
    if v.len() == 0 {
        assert(seq![e].skip(1) =~= v);
    } else if v[0].options.priority < e.options.priority {
        assert((seq![e] + v).skip(1) =~= v);
    } else {
        assert forall|i: int| 0 <= i < v.skip(1).len() implies (#[trigger] v.skip(1)[i]).callback
            != e.callback by {
            assert(v[i + 1].callback != e.callback);
        }
        law_off_undoes_on(v.skip(1), e);
        let w = seq![v[0]] + with_hook(v.skip(1), e);
        assert(w.skip(1) =~= with_hook(v.skip(1), e));
        assert(seq![v[0]] + v.skip(1) =~= v);
    }
}

/// After an event no one-shot hook that ran on it is left, and every other hook is.
pub proof fn law_once_hooks_leave(v: Seq<HookEntry>, ran: Seq<u64>, e: HookEntry)
    ensures
        v.filter(|h: HookEntry| stays(h, ran)).contains(e) == (v.contains(e) && !(e.options.once
            && ran.contains(e.serial))),
    decreases v.len(),
{
    let p = |h: HookEntry| stays(h, ran);
    reveal(Seq::filter);
    let w = v.filter(p);
    if v.len() > 0 {
        let rest = v.drop_last();
        law_once_hooks_leave(rest, ran, e);
        let f = rest.filter(p);
        if v.contains(e) {
            let i = choose|i: int| 0 <= i < v.len() && v[i] == e;
            if i < rest.len() {
                assert(rest[i] == e);
                if f.contains(e) {
                    let k = choose|k: int| 0 <= k < f.len() && f[k] == e;
                    assert(w[k] == e);
                }
            } else if p(e) {
                assert(w[w.len() - 1] == e);
            }
        }
        if w.contains(e) {
            let k = choose|k: int| 0 <= k < w.len() && w[k] == e;
            if k < f.len() {
                assert(f[k] == e);
                let i = choose|i: int| 0 <= i < rest.len() && rest[i] == e;
                assert(v[i] == e);
            } else {
                assert(v[v.len() - 1] == e);
            }
        }
    }
}

/// A new hook runs behind those of its priority and above, and ahead of those below it; the
/// others keep their order.
pub proof fn law_place_of_a_new_hook(v: Seq<HookEntry>, e: HookEntry) -> (p: int)
    requires
        forall|i: int, j: int|
            0 <= i < j < v.len() ==> (#[trigger] v[i]).options.priority >= (
            #[trigger] v[j]).options.priority,
    ensures
        0 <= p <= v.len(),
        with_hook(v, e) == v.insert(p, e),
        forall|i: int| 0 <= i < p ==> (#[trigger] v[i]).options.priority >= e.options.priority,
        forall|i: int| p <= i < v.len() ==> (#[trigger] v[i]).options.priority
            < e.options.priority,
    decreases v.len(),
{
    if v.len() == 0 {
        assert(with_hook(v, e) =~= v.insert(0, e));
        0
    } else if v[0].options.priority < e.options.priority {
        assert(with_hook(v, e) =~= v.insert(0, e));
        0
    } else {
        let rest = v.skip(1);
        let p = law_place_of_a_new_hook(rest, e);
        assert(with_hook(v, e) =~= v.insert(p + 1, e));
        assert forall|i: int| 0 <= i < p + 1 implies (#[trigger] v[i]).options.priority
            >= e.options.priority by {
            if i > 0 {
                assert(v[i] == rest[i - 1]);
            }
        }
        assert forall|i: int| p + 1 <= i < v.len() implies (#[trigger] v[i]).options.priority
            < e.options.priority by {
            assert(v[i] == rest[i - 1]);
        }
        p + 1
    }
}

/// Hooks run by falling priority, and those of one priority in the order of their registration.
pub proof fn law_running_order_in_full(m: HookManagerImpl, event: ToolHookEvent, i: int, j: int)
    requires
        m.wf(),
        0 <= i < j < m.hooks_for(event).len(),
    ensures
        m.hooks_for(event)[i].options.priority >= m.hooks_for(event)[j].options.priority,
        m.hooks_for(event)[i].options.priority == m.hooks_for(event)[j].options.priority
            ==> m.hooks_for(event)[i].serial < m.hooks_for(event)[j].serial,
{
    law_running_order(m, event);
    assert(goes_before(m.hooks_for(event)[i], m.hooks_for(event)[j]));
}

/// Taking a callback off removes its first hook alone, and changes nothing where it has none.
pub proof fn law_off_removes_one(v: Seq<HookEntry>, callback: u64, p: int)
    requires
        0 <= p <= v.len(),
        forall|i: int| 0 <= i < p ==> (#[trigger] v[i]).callback != callback,
        p < v.len() ==> v[p].callback == callback,
    ensures
        without_callback(v, callback) == if p < v.len() {
            v.remove(p)
        } else {
            v
        },
{
    lemma_without_callback(v, p, callback);
}

/// A hook without a condition always runs; one with a condition runs exactly where the condition
/// was found to hold.
pub proof fn law_conditions(e: HookEntry, guard: Option<bool>)
    ensures
        e.options.condition is None ==> runs(e, guard),
        e.options.condition is Some ==> (runs(e, guard) <==> guard == Some(true)),
{
}

} // verus!
