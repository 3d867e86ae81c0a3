//! Registries of in-flight work: the single-flight set of builds and the running
//! container instances with their expiry.
//!
//! Time is a `u64` count of milliseconds on a monotonic clock that the caller reads.
use vstd::prelude::*;

use crate::ports::{advertised, mapping_valid, shifted_port, Endpoint, MappedAddr, PortRange};

verus! {

/// The key of a build: its owner (none for a static challenge) and its challenge.
#[derive(Debug, Clone, Copy, PartialEq, Eq, Structural)]
pub struct BuildKey {
    pub owner: Option<i32>,
    pub challenge: i32,
}

/// The key of a container instance: user, challenge and index of the artifact.
#[derive(Debug, Clone, Copy, PartialEq, Eq, Structural)]
pub struct InstanceKey {
    pub user: i32,
    pub challenge: i32,
    pub artifact: usize,
}

/// Why a registry operation was refused.
#[derive(Debug, Clone, Copy, PartialEq, Eq, Structural)]
pub enum RegistryError {
    /// A build for the same owner and challenge is in progress.
    BuildInProgress,
    /// An instance for the same key is being started.
    InstanceStarting,
    /// An instance for the same key is running.
    InstanceRunning,
    /// No instance runs under the key.
    InstanceNotFound,
}

proof fn lemma_push_contains<K>(s: Seq<K>, k: K)
    ensures
        forall|x: K| s.push(k).contains(x) <==> (s.contains(x) || x == k),
{
    assert forall|x: K| s.push(k).contains(x) <==> (s.contains(x) || x == k) by {
        if s.contains(x) {
            let i = choose|i: int| 0 <= i < s.len() && s[i] == x;
            assert(s.push(k)[i] == x);
        }
        if x == k {
            assert(s.push(k)[s.len() as int] == x);
        }
        if s.push(k).contains(x) {
            let i = choose|i: int| 0 <= i < s.push(k).len() && s.push(k)[i] == x;
            if i < s.len() {
                assert(s[i] == x);
            }
        }
    }
}

/// The outcome of claiming `key` when the builds `held` are in progress, and the builds in
/// progress after it.
pub open spec fn acquired(held: Set<BuildKey>, key: BuildKey) -> (Result<(), RegistryError>, Set<BuildKey>) {
    if held.contains(key) {
        (Err(RegistryError::BuildInProgress), held)
    } else {
        (Ok(()), held.insert(key))
    }
}

/// Of two claims on the same key with no release between them, the first one that finds
/// the key free succeeds and the second is refused at once, with nothing changed.
pub proof fn lemma_single_flight(held: Set<BuildKey>, key: BuildKey)
    ensures
        !held.contains(key) ==> acquired(held, key).0 is Ok,
        acquired(acquired(held, key).1, key).0 == Err::<(), RegistryError>(RegistryError::BuildInProgress),
        acquired(acquired(held, key).1, key).1 == acquired(held, key).1,
{
}

/// The set of builds in progress.
#[derive(Debug)]
pub struct BuildLocks {
    held: Vec<BuildKey>,
}

impl BuildLocks {
    pub closed spec fn view(&self) -> Set<BuildKey> {
        Set::new(|k: BuildKey| self.held@.contains(k))
    }

    pub fn new() -> (r: Self)
        ensures
            r@ == Set::<BuildKey>::empty(),
    {
        let r = BuildLocks { held: Vec::new() };
        proof {
            assert(r@ =~= Set::<BuildKey>::empty());
        }
        r
    }

    fn position(&self, key: BuildKey) -> (r: Option<usize>)
        ensures
            match r {
                Some(i) => i < self.held@.len() && self.held@[i as int] == key,
                None => !self.held@.contains(key),
            },
    {
        let mut i: usize = 0;
        while i < self.held.len()
            invariant
                i <= self.held@.len(),
                forall|j: int| 0 <= j < i ==> self.held@[j] != key,
            decreases self.held@.len() - i,
        {
            if self.held[i] == key {
                return Some(i);
            }
            i = i + 1;
        }
        None
    }

    /// Whether a build for `key` is in progress.
    pub fn is_building(&self, key: BuildKey) -> (r: bool)
        ensures
            r == self@.contains(key),
    {
        self.position(key).is_some()
    }

    /// Marks a build for `key` as in progress; refused if one already is.
    pub fn acquire(&mut self, key: BuildKey) -> (r: Result<(), RegistryError>)
        ensures
            (r, final(self)@) == acquired(old(self)@, key),
    {
        if self.position(key).is_some() {
            return Err(RegistryError::BuildInProgress);
        }
        self.held.push(key);
        proof {
            lemma_push_contains(old(self).held@, key);
            assert(self@ =~= old(self)@.insert(key));
        }
        Ok(())
    }

    /// Ends the build for `key`, whether it succeeded or not.
    pub fn release(&mut self, key: BuildKey)
        ensures
            final(self)@ == old(self)@.remove(key),
    {
        let mut kept: Vec<BuildKey> = Vec::new();
        let mut i: usize = 0;
        while i < self.held.len()
            invariant
                i <= self.held@.len(),
                self.held@ == old(self).held@,
                forall|x| kept@.contains(x) <==> (self.held@.subrange(0, i as int).contains(x) && x != key),
            decreases self.held@.len() - i,
        {
            let k = self.held[i];
            proof {
                assert(self.held@.subrange(0, i + 1) =~= self.held@.subrange(0, i as int).push(k));
                lemma_push_contains(self.held@.subrange(0, i as int), k);
                lemma_push_contains(kept@, k);
            }
            let ghost prev = kept@;
            if k != key {
                kept.push(k);
            }
            proof {
                let sub = self.held@.subrange(0, i + 1);
                assert forall|x| kept@.contains(x) <==> (sub.contains(x) && x != key) by {
                    assert(sub.contains(x) <==> (self.held@.subrange(0, i as int).contains(x) || x == k));
                    if k != key {
                        assert(kept@ == prev.push(k));
                        assert(kept@.contains(x) <==> (prev.contains(x) || x == k));
                    }
                }
            }
            i = i + 1;
        }
        proof {
            assert(self.held@.subrange(0, i as int) =~= self.held@);
        }
        self.held = kept;
        proof {
            assert(self.view() =~= old(self).view().remove(key));
        }
    }
}

/// A container instance that was started and has not been stopped.
#[derive(Debug)]
pub struct RunningInstance {
    pub key: InstanceKey,
    /// The container's id in the container daemon.
    pub container: String,
    /// Each exposed port name with the host port bound to it.
    pub ports: Vec<(String, u16)>,
    /// When the instance expires, if it does.
    pub stop_at: Option<u64>,
}

/// Which running instances an operation applies to.
#[derive(Debug, Clone, Copy, PartialEq, Eq, Structural)]
pub enum Selector {
    /// The instance under one key.
    One(InstanceKey),
    /// The instances of a challenge, of one user or of all users.
    Scope { user: Option<i32>, challenge: i32 },
    /// Every instance.
    All,
    /// The instances whose expiry is not after the given time.
    ExpiredAt(u64),
}

/// Whether an instance that stops at `stop_at` has expired at `now`.
pub open spec fn expired(stop_at: Option<u64>, now: u64) -> bool {
    match stop_at {
        Some(t) => t <= now,
        None => false,
    }
}

pub open spec fn selects(sel: Selector, e: RunningInstance) -> bool {
    match sel {
        Selector::One(k) => e.key == k,
        Selector::Scope { user, challenge } => e.key.challenge == challenge && match user {
            Some(u) => e.key.user == u,
            None => true,
        },
        Selector::All => true,
        Selector::ExpiredAt(now) => expired(e.stop_at, now),
    }
}

pub open spec fn selected(sel: Selector) -> spec_fn(RunningInstance) -> bool {
    |e: RunningInstance| selects(sel, e)
}

pub open spec fn unselected(sel: Selector) -> spec_fn(RunningInstance) -> bool {
    |e: RunningInstance| !selects(sel, e)
}

pub open spec fn has_key(s: Seq<RunningInstance>, k: InstanceKey) -> bool {
    exists|i: int| 0 <= i < s.len() && s[i].key == k
}

pub open spec fn unique_keys(s: Seq<RunningInstance>) -> bool {
    forall|i: int, j: int| 0 <= i < s.len() && 0 <= j < s.len() && i != j ==> s[i].key != s[j].key
}

impl Selector {
    fn matches(&self, e: &RunningInstance) -> (r: bool)
        ensures
            r == selects(*self, *e),
    {
        match *self {
            Selector::One(k) => e.key == k,
            Selector::Scope { user, challenge } => e.key.challenge == challenge && match user {
                Some(u) => e.key.user == u,
                None => true,
            },
            Selector::All => true,
            Selector::ExpiredAt(now) => match e.stop_at {
                Some(t) => t <= now,
                None => false,
            },
        }
    }
}

/// Every element that a filter keeps comes from the filtered sequence.
pub(crate) proof fn lemma_filter_from(s: Seq<RunningInstance>, p: spec_fn(RunningInstance) -> bool, i: int)
    requires
        0 <= i < s.filter(p).len(),
    ensures
        exists|j: int| 0 <= j < s.len() && s[j] == s.filter(p)[i],
    decreases s.len(),
{
    reveal(Seq::filter);
    let d = s.drop_last();
    if p(s.last()) && i == s.filter(p).len() - 1 {
        assert(s[s.len() - 1] == s.filter(p)[i]);
    } else {
        assert(s.filter(p)[i] == d.filter(p)[i]);
        lemma_filter_from(d, p, i);
        let j = choose|j: int| 0 <= j < d.len() && d[j] == d.filter(p)[i];
        assert(s[j] == d[j]);
    }
}

proof fn lemma_filter_unique(s: Seq<RunningInstance>, p: spec_fn(RunningInstance) -> bool)
    requires
        unique_keys(s),
    ensures
        unique_keys(s.filter(p)),
    decreases s.len(),
{
    reveal(Seq::filter);
    if s.len() > 0 {
        let d = s.drop_last();
        assert(unique_keys(d)) by {
            assert forall|i: int, j: int| 0 <= i < d.len() && 0 <= j < d.len() && i != j implies d[i].key != d[j].key by {
                assert(d[i] == s[i] && d[j] == s[j]);
            }
        }
        lemma_filter_unique(d, p);
        if p(s.last()) {
            let f = d.filter(p);
            assert forall|i: int| 0 <= i < f.len() implies f[i].key != s.last().key by {
                lemma_filter_from(d, p, i);
                let j = choose|j: int| 0 <= j < d.len() && d[j] == f[i];
                assert(d[j] == s[j]);
            }
        }
    }
}

/// A key absent from a sequence is absent from what a filter keeps of it.
proof fn lemma_filter_keys(s: Seq<RunningInstance>, p: spec_fn(RunningInstance) -> bool, k: InstanceKey)
    ensures
        has_key(s.filter(p), k) ==> has_key(s, k),
        (forall|i: int| 0 <= i < s.len() && s[i].key == k ==> p(s[i])) ==> (has_key(s, k) ==> has_key(s.filter(p), k)),
{
    if has_key(s.filter(p), k) {
        let i = choose|i: int| 0 <= i < s.filter(p).len() && s.filter(p)[i].key == k;
        lemma_filter_from(s, p, i);
    }
    if (forall|i: int| 0 <= i < s.len() && s[i].key == k ==> p(s[i])) && has_key(s, k) {
        let i = choose|i: int| 0 <= i < s.len() && s[i].key == k;
        s.lemma_filter_contains(p, i);
        let j = choose|j: int| 0 <= j < s.filter(p).len() && s.filter(p)[j] == s[i];
    }
}

/// The running container instances, and the keys whose instance is being started.
#[derive(Debug)]
pub struct InstanceRegistry {
    starting: Vec<InstanceKey>,
    running: Vec<RunningInstance>,
}

impl InstanceRegistry {
    /// The keys whose start is in progress.
    pub closed spec fn starting(&self) -> Set<InstanceKey> {
        Set::new(|k: InstanceKey| self.starting@.contains(k))
    }

    /// The running instances, in the order they were registered.
    pub closed spec fn instances(&self) -> Seq<RunningInstance> {
        self.running@
    }

    pub open spec fn running(&self, k: InstanceKey) -> bool {
        has_key(self.instances(), k)
    }

    pub closed spec fn wf(&self) -> bool {
        unique_keys(self.running@)
    }

    pub fn new() -> (r: Self)
        ensures
            r.wf(),
            r.starting() == Set::<InstanceKey>::empty(),
            r.instances() == Seq::<RunningInstance>::empty(),
    {
        let r = InstanceRegistry { starting: Vec::new(), running: Vec::new() };
        proof {
            assert(r.starting() =~= Set::<InstanceKey>::empty());
        }
        r
    }

    fn running_position(&self, key: InstanceKey) -> (r: Option<usize>)
        ensures
            match r {
                Some(i) => i < self.running@.len() && self.running@[i as int].key == key,
                None => !has_key(self.running@, key),
            },
    {
        let mut i: usize = 0;
        while i < self.running.len()
            invariant
                i <= self.running@.len(),
                forall|j: int| 0 <= j < i ==> self.running@[j].key != key,
            decreases self.running@.len() - i,
        {
            if self.running[i].key == key {
                return Some(i);
            }
            i = i + 1;
        }
        None
    }

    /// Whether an instance runs under `key`.
    pub fn is_running(&self, key: InstanceKey) -> (r: bool)
        ensures
            r == self.running(key),
    {
        self.running_position(key).is_some()
    }

    fn starting_position(&self, key: InstanceKey) -> (r: bool)
        ensures
            r == self.starting@.contains(key),
    {
        let mut i: usize = 0;
        while i < self.starting.len()
            invariant
                i <= self.starting@.len(),
                forall|j: int| 0 <= j < i ==> self.starting@[j] != key,
            decreases self.starting@.len() - i,
        {
            if self.starting[i] == key {
                proof {
                    assert(self.starting@.contains(key));
                }
                return true;
            }
            i = i + 1;
        }
        false
    }

    /// Whether an instance under `key` is being started.
    pub fn is_starting(&self, key: InstanceKey) -> (r: bool)
        ensures
            r == self.starting().contains(key),
    {
        self.starting_position(key)
    }

    /// Claims `key` for starting an instance; refused while another start for it is in
    /// progress or an instance runs under it.
    pub fn begin_start(&mut self, key: InstanceKey) -> (r: Result<(), RegistryError>)
        requires
            old(self).wf(),
        ensures
            final(self).wf(),
            final(self).instances() == old(self).instances(),
            old(self).starting().contains(key) ==> r == Err::<(), RegistryError>(RegistryError::InstanceStarting)
                && final(self).starting() == old(self).starting(),
            !old(self).starting().contains(key) && old(self).running(key) ==> r == Err::<(), RegistryError>(RegistryError::InstanceRunning)
                && final(self).starting() == old(self).starting(),
            !old(self).starting().contains(key) && !old(self).running(key) ==> r is Ok
                && final(self).starting() == old(self).starting().insert(key),
    {
        if self.starting_position(key) {
            return Err(RegistryError::InstanceStarting);
        }
        if self.running_position(key).is_some() {
            return Err(RegistryError::InstanceRunning);
        }
        self.starting.push(key);
        proof {
            lemma_push_contains(old(self).starting@, key);
            assert(self.starting() =~= old(self).starting().insert(key));
        }
        Ok(())
    }

    /// Gives up the claim on `key`, whether the start succeeded or not.
    pub fn end_start(&mut self, key: InstanceKey)
        requires
            old(self).wf(),
        ensures
            final(self).wf(),
            final(self).instances() == old(self).instances(),
            final(self).starting() == old(self).starting().remove(key),
    {
        let mut kept: Vec<InstanceKey> = Vec::new();
        let mut i: usize = 0;
        while i < self.starting.len()
            invariant
                i <= self.starting@.len(),
                self.starting@ == old(self).starting@,
                self.running@ == old(self).running@,
                forall|x| kept@.contains(x) <==> (self.starting@.subrange(0, i as int).contains(x) && x != key),
            decreases self.starting@.len() - i,
        {
            let k = self.starting[i];
            proof {
                assert(self.starting@.subrange(0, i + 1) =~= self.starting@.subrange(0, i as int).push(k));
                lemma_push_contains(self.starting@.subrange(0, i as int), k);
                lemma_push_contains(kept@, k);
            }
            let ghost prev = kept@;
            if k != key {
                kept.push(k);
            }
            proof {
                let sub = self.starting@.subrange(0, i + 1);
                assert forall|x| kept@.contains(x) <==> (sub.contains(x) && x != key) by {
                    assert(sub.contains(x) <==> (self.starting@.subrange(0, i as int).contains(x) || x == k));
                    if k != key {
                        assert(kept@ == prev.push(k));
                        assert(kept@.contains(x) <==> (prev.contains(x) || x == k));
                    }
                }
            }
            i = i + 1;
        }
        proof {
            assert(self.starting@.subrange(0, i as int) =~= self.starting@);
        }
        self.starting = kept;
        proof {
            assert(self.starting() =~= old(self).starting().remove(key));
        }
    }

    /// Removes and returns the instances that `sel` selects, in registration order.
    pub fn take(&mut self, sel: Selector) -> (r: Vec<RunningInstance>)
        requires
            old(self).wf(),
        ensures
            final(self).wf(),
            final(self).starting() == old(self).starting(),
            final(self).instances() == old(self).instances().filter(unselected(sel)),
            r@ == old(self).instances().filter(selected(sel)),
    {
        let ghost orig = self.running@;
        let mut rest: Vec<RunningInstance> = Vec::new();
        std::mem::swap(&mut rest, &mut self.running);
        let mut kept: Vec<RunningInstance> = Vec::new();
        let mut taken: Vec<RunningInstance> = Vec::new();
        let ghost mut j: int = 0;
        proof {
            assert(orig.subrange(0, 0) =~= Seq::<RunningInstance>::empty());
            assert(orig.skip(0) =~= orig);
        }
        while rest.len() > 0
            invariant
                0 <= j <= orig.len(),
                rest@ == orig.skip(j),
                kept@ == orig.subrange(0, j).filter(unselected(sel)),
                taken@ == orig.subrange(0, j).filter(selected(sel)),
                self.starting@ == old(self).starting@,
            decreases rest@.len(),
        {
            let e = rest.remove(0);
            proof {
                assert(e == orig[j]);
                assert(orig.subrange(0, j + 1).drop_last() =~= orig.subrange(0, j));
                assert(orig.subrange(0, j + 1).last() == e);
                assert(rest@ =~= orig.skip(j + 1));
                reveal(Seq::filter);
            }
            if sel.matches(&e) {
                taken.push(e);
            } else {
                kept.push(e);
            }
            proof {
                j = j + 1;
            }
        }
        proof {
            assert(orig.subrange(0, j) =~= orig);
            lemma_filter_unique(orig, unselected(sel));
        }
        self.running = kept;
        taken
    }

    /// Registers the started instance under `key` and gives up the claim on it.
    /// It expires `ttl` after `now`, if a time to live is configured and the sum fits.
    pub fn finish_start(&mut self, key: InstanceKey, container: String, ports: Vec<(String, u16)>, now: u64, ttl: Option<u64>)
        requires
            old(self).wf(),
            old(self).starting().contains(key),
            !old(self).running(key),
        ensures
            final(self).wf(),
            final(self).starting() == old(self).starting().remove(key),
            final(self).instances() == old(self).instances().push(
                RunningInstance { key, container, ports, stop_at: expiry_of(now, ttl) },
            ),
    {
        let stop_at = match ttl {
            Some(t) => now.checked_add(t),
            None => None,
        };
        let ghost before = self.running@;
        let inst = RunningInstance { key, container, ports, stop_at };
        self.running.push(inst);
        proof {
            let s = self.running@;
            assert forall|i: int, j: int| 0 <= i < s.len() && 0 <= j < s.len() && i != j implies s[i].key != s[j].key by {
                if i < before.len() && j < before.len() {
                    assert(s[i] == before[i] && s[j] == before[j]);
                } else if i < before.len() {
                    assert(s[i] == before[i]);
                } else {
                    assert(s[j] == before[j]);
                }
            }
        }
        self.end_start(key);
    }

    /// Removes the instance under `key`, returning it so that its container can be stopped.
    pub fn stop(&mut self, key: InstanceKey) -> (r: Option<RunningInstance>)
        requires
            old(self).wf(),
        ensures
            final(self).wf(),
            final(self).starting() == old(self).starting(),
            !final(self).running(key),
            final(self).instances() == old(self).instances().filter(unselected(Selector::One(key))),
            old(self).running(key) <==> r is Some,
            r matches Some(e) ==> e.key == key && old(self).instances().contains(e),
    {
        let mut taken = self.take(Selector::One(key));
        proof {
            lemma_filter_keys(old(self).running@, unselected(Selector::One(key)), key);
            lemma_filter_keys(old(self).running@, selected(Selector::One(key)), key);
            if taken@.len() > 0 {
                let i = (taken@.len() - 1) as int;
                old(self).running@.lemma_filter_pred(selected(Selector::One(key)), i);
                lemma_filter_from(old(self).running@, selected(Selector::One(key)), i);
            }
            if has_key(taken@, key) {
                assert(taken@.len() > 0);
            }
        }
        taken.pop()
    }

    /// Removes every instance expired at `now`, returning them so that their containers
    /// can be stopped.
    pub fn sweep(&mut self, now: u64) -> (r: Vec<RunningInstance>)
        requires
            old(self).wf(),
        ensures
            final(self).wf(),
            final(self).starting() == old(self).starting(),
            final(self).instances() == old(self).instances().filter(unselected(Selector::ExpiredAt(now))),
            r@ == old(self).instances().filter(selected(Selector::ExpiredAt(now))),
    {
        self.take(Selector::ExpiredAt(now))
    }
}

/// What is shown of a running instance: the time left before it expires, if it does,
/// and each exposed port name with the endpoints it is advertised under.
#[derive(Debug)]
pub struct DockerInstanceInfo {
    pub expiry: Option<u64>,
    pub ports: Vec<(String, Vec<Endpoint>)>,
}

/// The time left at `now` before `stop_at`, none once it has passed.
pub open spec fn remaining(stop_at: Option<u64>, now: u64) -> Option<u64> {
    match stop_at {
        Some(t) => Some(if now < t { (t - now) as u64 } else { 0 }),
        None => None,
    }
}

/// Whether every host port of every instance lies in `alloc`, where it is set.
pub open spec fn ports_within(s: Seq<RunningInstance>, alloc: Option<PortRange>) -> bool {
    forall|i: int, j: int| 0 <= i < s.len() && 0 <= j < s[i].ports@.len() && alloc is Some
        ==> alloc.unwrap().has(#[trigger] s[i].ports@[j].1)
}

/// Whether `info` shows instance `e` at `now` with the advertised addresses `mapped`.
pub open spec fn shows(info: DockerInstanceInfo, e: RunningInstance, now: u64, mapped: Seq<MappedAddr>, alloc: Option<PortRange>) -> bool {
    &&& info.expiry == remaining(e.stop_at, now)
    &&& info.ports@.len() == e.ports@.len()
    &&& forall|j: int| 0 <= j < info.ports@.len() ==> {
        &&& (#[trigger] info.ports@[j]).0 == e.ports@[j].0
        &&& info.ports@[j].1@.len() == mapped.len()
        &&& forall|m: int| 0 <= m < mapped.len() ==> (#[trigger] info.ports@[j].1@[m]).addr == mapped[m].addr
            && info.ports@[j].1@[m].port == shifted_port(e.ports@[j].1, alloc, mapped[m].ports)
    }
}

impl InstanceRegistry {
    /// Whether every host port of every instance lies in `alloc`, where it is set.
    pub fn ports_within(&self, alloc: Option<PortRange>) -> (r: bool)
        ensures
            r == ports_within(self.instances(), alloc),
    {
        let a = match alloc {
            Some(a) => a,
            None => {
                return true;
            },
        };
        let mut i: usize = 0;
        while i < self.running.len()
            invariant
                alloc == Some(a),
                i <= self.running@.len(),
                forall|x: int, j: int| 0 <= x < i && 0 <= j < self.running@[x].ports@.len()
                    ==> a.has(#[trigger] self.running@[x].ports@[j].1),
            decreases self.running@.len() - i,
        {
            let ports = &self.running[i].ports;
            let mut j: usize = 0;
            while j < ports.len()
                invariant
                    alloc == Some(a),
                    i < self.running@.len(),
                    ports == &self.running@[i as int].ports,
                    j <= ports@.len(),
                    forall|x: int, y: int| 0 <= x < i && 0 <= y < self.running@[x].ports@.len()
                        ==> a.has(#[trigger] self.running@[x].ports@[y].1),
                    forall|y: int| 0 <= y < j ==> a.has(#[trigger] ports@[y].1),
                decreases ports@.len() - j,
            {
                if !a.contains(ports[j].1) {
                    proof {
                        let s = self.running@;
                        assert(!a.has(s[i as int].ports@[j as int].1));
                        assert(0 <= j < s[i as int].ports@.len());
                        assert(!ports_within(s, alloc));
                    }
                    return false;
                }
                j = j + 1;
            }
            i = i + 1;
        }
        true
    }

    /// The expiry and advertised ports of the instance under `key`.
    pub fn instance_info(&self, key: InstanceKey, now: u64, mapped: &Vec<MappedAddr>, alloc: Option<PortRange>) -> (r: Result<DockerInstanceInfo, RegistryError>)
        requires
            self.wf(),
            mapping_valid(mapped@, alloc),
            ports_within(self.instances(), alloc),
        ensures
            !self.running(key) <==> r == Err::<DockerInstanceInfo, RegistryError>(RegistryError::InstanceNotFound),
            self.running(key) <==> r is Ok,
            r matches Ok(info) ==> exists|i: int| 0 <= i < self.instances().len()
                && self.instances()[i].key == key && shows(info, self.instances()[i], now, mapped@, alloc),
    {
        let i = match self.running_position(key) {
            Some(i) => i,
            None => {
                return Err(RegistryError::InstanceNotFound);
            },
        };
        let e = &self.running[i];
        let expiry = match e.stop_at {
            Some(t) => Some(if now < t { t - now } else { 0 }),
            None => None,
        };
        let mut ports: Vec<(String, Vec<Endpoint>)> = Vec::new();
        let mut j: usize = 0;
        while j < e.ports.len()
            invariant
                i < self.running@.len(),
                e == &self.running@[i as int],
                mapping_valid(mapped@, alloc),
                ports_within(self.running@, alloc),
                j <= e.ports@.len(),
                ports@.len() == j,
                forall|y: int| 0 <= y < j ==> {
                    &&& (#[trigger] ports@[y]).0 == e.ports@[y].0
                    &&& ports@[y].1@.len() == mapped@.len()
                    &&& forall|m: int| 0 <= m < mapped@.len() ==> (#[trigger] ports@[y].1@[m]).addr == mapped@[m].addr
                        && ports@[y].1@[m].port == shifted_port(e.ports@[y].1, alloc, mapped@[m].ports)
                },
            decreases e.ports@.len() - j,
        {
            let name = e.ports[j].0.clone();
            let port = e.ports[j].1;
            proof {
                if alloc is Some {
                    assert(alloc.unwrap().has(self.running@[i as int].ports@[j as int].1));
                }
            }
            let endpoints = advertised(mapped, alloc, port);
            ports.push((name, endpoints));
            j = j + 1;
        }
        let info = DockerInstanceInfo { expiry, ports };
        proof {
            assert(shows(info, self.running@[i as int], now, mapped@, alloc));
        }
        Ok(info)
    }
}

/// A sweep at or after an instance's expiry removes it from the registry and hands it out
/// exactly once: a later sweep does not hand it out again.
pub proof fn lemma_ttl_expiry(s: Seq<RunningInstance>, i: int, now: u64, later: u64)
    requires
        unique_keys(s),
        0 <= i < s.len(),
        expired(s[i].stop_at, now),
        now <= later,
    ensures
        !has_key(s.filter(unselected(Selector::ExpiredAt(now))), s[i].key),
        has_key(s.filter(selected(Selector::ExpiredAt(now))), s[i].key),
        unique_keys(s.filter(selected(Selector::ExpiredAt(now)))),
        !has_key(s.filter(unselected(Selector::ExpiredAt(now))).filter(selected(Selector::ExpiredAt(later))), s[i].key),
{
    let k = s[i].key;
    let kept = s.filter(unselected(Selector::ExpiredAt(now)));
    lemma_filter_keys(s, selected(Selector::ExpiredAt(now)), k);
    assert forall|j: int| 0 <= j < s.len() && s[j].key == k implies selected(Selector::ExpiredAt(now))(s[j]) by {
        assert(j == i);
    }
    assert(has_key(s, k));
    lemma_filter_unique(s, selected(Selector::ExpiredAt(now)));
    if has_key(kept, k) {
        let j = choose|j: int| 0 <= j < kept.len() && kept[j].key == k;
        s.lemma_filter_pred(unselected(Selector::ExpiredAt(now)), j);
        lemma_filter_from(s, unselected(Selector::ExpiredAt(now)), j);
        let m = choose|m: int| 0 <= m < s.len() && s[m] == kept[j];
        assert(m == i);
    }
    lemma_filter_keys(kept, selected(Selector::ExpiredAt(later)), k);
}

/// When an instance registered at `now` expires, if `ttl` is set and the sum fits.
pub open spec fn expiry_of(now: u64, ttl: Option<u64>) -> Option<u64> {
    match ttl {
        Some(t) => if now + t <= u64::MAX { Some((now + t) as u64) } else { None },
        None => None,
    }
}

} // verus!
