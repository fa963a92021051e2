//! The advisory-lock protocol and the lazy kernel cache.
//!
//! Cross-process advisory locks are modelled as an explicit exclusivity
//! service: a named lock records at most one cooperating actor's grant,
//! and every priority decision is a pure function of explicit arguments —
//! the caller's own role and the observed lock state — never of hidden
//! per-thread state. An embedding backs `NamedLock` with any OS advisory
//! lock that meets the same try/blocking contract.

use vstd::prelude::*;

verus! {

use crate::multiexp::spec_create_ok;
use crate::multiexp::DeviceConfig;
use crate::multiexp::MultiexpKernel;

/// One named advisory lock: at most one cooperating actor holds a grant
/// on it at any instant. Actors carry plain ids.
pub struct NamedLock {
    holder: Option<u64>,
}

/// What a non-blocking acquisition attempt does: a free lock is granted
/// to the caller; a held lock is left unchanged and the caller refused.
pub open spec fn spec_try_acquire(h: Option<u64>, actor: u64) -> (Option<u64>, bool) {
    if h is None {
        (Some(actor), true)
    } else {
        (h, false)
    }
}

/// Whether some other actor holds the lock — "the signal is raised".
pub open spec fn spec_is_signaled(h: Option<u64>, actor: u64) -> bool {
    h is Some && h != Some(actor)
}

/// Whether a device holder must relinquish: it does not itself hold the
/// priority role and another actor is signalling.
pub open spec fn spec_should_break(priority: bool, h: Option<u64>, actor: u64) -> bool {
    !priority && spec_is_signaled(h, actor)
}

impl NamedLock {
    /// Who holds the lock, if anyone.
    pub closed spec fn spec_holder(&self) -> Option<u64> {
        self.holder
    }

    /// A fresh, unheld lock.
    pub fn new() -> (r: NamedLock)
        ensures
            r.spec_holder() is None,
    {
        NamedLock { holder: None }
    }

    /// Blocking acquisition. The model records the moment the call
    /// returns, at which point the lock was free and is now the caller's.
    pub fn acquire(&mut self, actor: u64)
        requires
            old(self).spec_holder() is None,
        ensures
            final(self).spec_holder() == Some(actor),
    {
        self.holder = Some(actor);
    }

    /// Non-blocking acquisition attempt.
    pub fn try_acquire(&mut self, actor: u64) -> (r: bool)
        ensures
            final(self).spec_holder() == spec_try_acquire(old(self).spec_holder(), actor).0,
            r == spec_try_acquire(old(self).spec_holder(), actor).1,
    {
        match self.holder {
            None => {
                self.holder = Some(actor);
                true
            },
            Some(_) => false,
        }
    }

    /// Release a held grant.
    pub fn release(&mut self, actor: u64)
        requires
            old(self).spec_holder() == Some(actor),
        ensures
            final(self).spec_holder() is None,
    {
        self.holder = None;
    }

    /// Non-blocking probe: true iff some other actor holds the lock. A
    /// caller probing a lock it holds itself is never reported contended,
    /// so detecting one's own grant cannot deadlock or mislead.
    pub fn is_signaled(&self, actor: u64) -> (r: bool)
        ensures
            r == spec_is_signaled(self.spec_holder(), actor),
    {
        match self.holder {
            Some(h) => h != actor,
            None => false,
        }
    }

    /// Conditional policy: only a caller that is itself high priority
    /// takes the priority lock at all; any other caller gets no grant and
    /// leaves the lock untouched.
    pub fn acquire_if_priority(&mut self, is_priority: bool, actor: u64) -> (got: bool)
        requires
            is_priority ==> old(self).spec_holder() is None,
        ensures
            got == is_priority,
            is_priority ==> final(self).spec_holder() == Some(actor),
            !is_priority ==> final(self).spec_holder() == old(self).spec_holder(),
    {
        if is_priority {
            self.acquire(actor);
            true
        } else {
            false
        }
    }
}

/// Binary flag policy: the device may be used iff the caller holds the
/// priority role itself or nobody else is signalling.
pub fn can_use_device(priority_flag: bool, signal: &NamedLock, actor: u64) -> (r: bool)
    ensures
        r == !spec_should_break(priority_flag, signal.spec_holder(), actor),
{
    priority_flag || !signal.is_signaled(actor)
}

/// Whether a normal-priority device holder must relinquish now: a
/// high-priority process is signalling through the priority lock.
pub fn should_break(priority: bool, signal: &NamedLock, actor: u64) -> (r: bool)
    ensures
        r == spec_should_break(priority, signal.spec_holder(), actor),
{
    !priority && signal.is_signaled(actor)
}

/// Law (mutual exclusion): of two attempts by different actors on one
/// free lock, the first is granted and the second refused while the first
/// grant stands; released (the holder back to none, as `release`
/// guarantees), the lock grants the second actor's attempt.
pub proof fn lemma_lock_mutual_exclusion(a: u64, b: u64)
    requires
        a != b,
    ensures
        ({
            let (h1, got_a) = spec_try_acquire(None, a);
            let (h2, got_b) = spec_try_acquire(h1, b);
            &&& got_a
            &&& h1 == Some(a)
            &&& !got_b
            &&& h2 == h1
            &&& spec_try_acquire(None, b).1
        }),
{
}

/// Law (priority preemption): while a priority actor holds the signal,
/// every other actor without the priority role observes "relinquish";
/// `LockedMultiexpKernel::get` then drops any cached kernel on its very
/// next call, as its contract states.
pub proof fn lemma_priority_preemption(p: u64, o: u64)
    requires
        p != o,
    ensures
        spec_is_signaled(Some(p), o),
        spec_should_break(false, Some(p), o),
{
}

/// Law (self non-contention): an actor holding the priority role never
/// observes itself as contended, and a priority-role holder never
/// relinquishes on its own account.
pub proof fn lemma_self_non_contention(h: Option<u64>, me: u64)
    ensures
        !spec_is_signaled(Some(me), me),
        h == Some(me) ==> !spec_is_signaled(h, me),
        !spec_should_break(true, h, me),
{
}

/// What the kernel factory leaves in the slot: a kernel matching the
/// discovered devices when they allow one, otherwise nothing — a failed
/// discovery or build never panics, the caller just proceeds without.
pub open spec fn spec_factory_result(devices: Seq<DeviceConfig>, k: Option<MultiexpKernel>) -> bool {
    if spec_create_ok(devices) {
        &&& k is Some
        &&& k->0.wf()
        &&& k->0.spec_kernels().len() == devices.len()
        &&& forall|i: int|
            0 <= i < devices.len() ==> (#[trigger] k->0.spec_kernels()[i]).spec_config()
                == devices[i]
    } else {
        k is None
    }
}

/// The lazy kernel cache: holds at most one multiexp kernel, drops it the
/// instant preemption is observed, and rebuilds it on the next clean
/// observation. It must be consulted immediately before every use of the
/// kernel — the relinquish decision is never cached across calls, since
/// another process's priority request can arrive between them.
pub struct LockedMultiexpKernel {
    /// Whether this cache's owner holds the priority role.
    pub priority: bool,
    /// The cached kernel: absent until the first successful build, and
    /// again after preemption or a failed build.
    pub kernel: Option<MultiexpKernel>,
}

impl LockedMultiexpKernel {
    /// A fresh cache for an owner with the given role; no kernel yet.
    pub fn new(priority: bool) -> (r: LockedMultiexpKernel)
        ensures
            r.priority == priority,
            r.kernel is None,
    {
        LockedMultiexpKernel { priority, kernel: None }
    }

    /// One observation-and-refresh step. Reads the priority signal: under
    /// preemption the cached kernel is dropped (releasing its device
    /// resources); otherwise a missing kernel is rebuilt from the devices
    /// discovered now. Returns whether a kernel is available after the
    /// step.
    pub fn get(&mut self, signal: &NamedLock, actor: u64, devices: &Vec<DeviceConfig>) -> (available:
        bool)
        ensures
            final(self).priority == old(self).priority,
            available == (final(self).kernel is Some),
            spec_should_break(old(self).priority, signal.spec_holder(), actor)
                ==> final(self).kernel is None,
            (!spec_should_break(old(self).priority, signal.spec_holder(), actor)
                && old(self).kernel is Some) ==> final(self).kernel == old(self).kernel,
            (!spec_should_break(old(self).priority, signal.spec_holder(), actor)
                && old(self).kernel is None) ==> spec_factory_result(devices@, final(self).kernel),
    {
        if should_break(self.priority, signal, actor) {
            // A high-priority process wants the device: free the kernel.
            self.kernel = None;
        } else if self.kernel.is_none() {
            // The device is available: build the kernel on first demand.
            match MultiexpKernel::create(devices) {
                Ok(k) => {
                    self.kernel = Some(k);
                },
                Err(_) => {
                    self.kernel = None;
                },
            }
        }
        self.kernel.is_some()
    }
}

} // verus!
