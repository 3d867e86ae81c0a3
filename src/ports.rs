//! Host port allocation for container instances, and the addresses under which the
//! allocated ports are advertised.
use vstd::prelude::*;

verus! {

/// An inclusive range of ports, `start..=end`; empty when `start > end`.
#[derive(Debug, Clone, Copy, PartialEq, Eq, Structural)]
pub struct PortRange {
    pub start: u16,
    pub end: u16,
}

/// The lowest port scanned when no range is configured.
pub const FIRST_PORT: u16 = 1;

/// The highest port scanned when no range is configured.
pub const LAST_PORT: u16 = 65535;

impl PortRange {
    pub open spec fn size(self) -> nat {
        if self.start <= self.end {
            (self.end - self.start + 1) as nat
        } else {
            0
        }
    }

    pub open spec fn has(self, p: u16) -> bool {
        self.start <= p && p <= self.end
    }

    /// The number of ports in the range.
    pub fn len(&self) -> (r: u32)
        ensures
            r == self.size(),
    {
        if self.start <= self.end {
            (self.end - self.start) as u32 + 1
        } else {
            0
        }
    }

    /// Whether `port` lies in the range.
    pub fn contains(&self, port: u16) -> (r: bool)
        ensures
            r == self.has(port),
    {
        self.start <= port && port <= self.end
    }
}

/// The range scanned for free host ports: the configured one, else every port.
pub open spec fn scan_range(configured: Option<PortRange>) -> PortRange {
    match configured {
        Some(r) => r,
        None => PortRange { start: FIRST_PORT, end: LAST_PORT },
    }
}

pub fn candidate_range(configured: Option<PortRange>) -> (r: PortRange)
    ensures
        r == scan_range(configured),
{
    match configured {
        Some(r) => r,
        None => PortRange { start: FIRST_PORT, end: LAST_PORT },
    }
}

/// A scan of candidate host ports in ascending order that pairs each exposed port name,
/// in order, with the next candidate found free on every bind address.
///
/// The caller probes the candidate that [`PortScan::candidate`] names on each bind address
/// and reports the outcomes to [`PortScan::record`], until no candidate is left. When the
/// candidates run out first, the remaining names stay unpaired.
pub struct PortScan {
    names: Vec<String>,
    range: PortRange,
    next: u32,
    pairs: Vec<(String, u16)>,
    probed: Ghost<Seq<bool>>,
}

/// The candidates found free, ascending, when the candidates from `start` on were probed
/// with the outcomes `probed`, one per candidate.
pub open spec fn free_ports(start: int, probed: Seq<bool>) -> Seq<int>
    decreases probed.len(),
{
    if probed.len() == 0 {
        Seq::empty()
    } else {
        let rest = free_ports(start, probed.drop_last());
        if probed.last() {
            rest.push(start + probed.len() - 1)
        } else {
            rest
        }
    }
}

/// The free candidates are ascending, each one was found free, and every candidate found
/// free is among them.
pub proof fn lemma_free_ports(start: int, probed: Seq<bool>)
    ensures
        forall|i: int, j: int| 0 <= i < j < free_ports(start, probed).len()
            ==> #[trigger] free_ports(start, probed)[i] < #[trigger] free_ports(start, probed)[j],
        forall|i: int| 0 <= i < free_ports(start, probed).len() ==> {
            let p = #[trigger] free_ports(start, probed)[i];
            start <= p < start + probed.len() && probed[p - start]
        },
        forall|k: int| 0 <= k < probed.len() && #[trigger] probed[k] ==> free_ports(start, probed).contains(start + k),
    decreases probed.len(),
{
    if probed.len() > 0 {
        let d = probed.drop_last();
        lemma_free_ports(start, d);
        let rest = free_ports(start, d);
        let f = free_ports(start, probed);
        assert forall|i: int| 0 <= i < f.len() implies {
            let p = #[trigger] f[i];
            start <= p < start + probed.len() && probed[p - start]
        } by {
            if i < rest.len() {
                assert(f[i] == rest[i]);
                assert(probed[rest[i] - start] == d[rest[i] - start]);
            }
        }
        assert forall|k: int| 0 <= k < probed.len() && #[trigger] probed[k] implies f.contains(start + k) by {
            if k < d.len() {
                assert(d[k] == probed[k]);
                let i = choose|i: int| 0 <= i < rest.len() && rest[i] == start + k;
                assert(f[i] == rest[i]);
            } else {
                assert(f[f.len() - 1] == start + k);
            }
        }
        assert forall|i: int, j: int| 0 <= i < j < f.len() implies #[trigger] f[i] < #[trigger] f[j] by {
            if j < rest.len() {
                assert(f[i] == rest[i] && f[j] == rest[j]);
            } else {
                assert(f[i] == rest[i]);
            }
        }
    }
}

/// Whether every probe succeeded.
pub open spec fn all_free(probes: Seq<bool>) -> bool {
    forall|i: int| 0 <= i < probes.len() ==> probes[i]
}

impl PortScan {
    /// The exposed port names to pair.
    pub closed spec fn names(&self) -> Seq<String> {
        self.names@
    }

    /// The range scanned.
    pub closed spec fn range(&self) -> PortRange {
        self.range
    }

    /// The next candidate port, once every earlier one was probed.
    pub closed spec fn cursor(&self) -> nat {
        self.next as nat
    }

    /// The pairs made so far.
    pub closed spec fn pairs(&self) -> Seq<(String, u16)> {
        self.pairs@
    }

    /// Whether each candidate probed so far, from the start of the range on, was free on
    /// every bind address.
    pub closed spec fn probed(&self) -> Seq<bool> {
        self.probed@
    }

    pub open spec fn finished(&self) -> bool {
        self.pairs().len() >= self.names().len() || self.cursor() > self.range().end
    }

    /// Every pair names the exposed port at its position, and their host ports lie in the
    /// range, ascending, below the cursor.
    pub closed spec fn wf(&self) -> bool {
        &&& self.pairs@.len() <= self.names@.len()
        &&& self.range.start <= self.next <= 65536
        &&& forall|j: int| 0 <= j < self.pairs@.len() ==> #[trigger] self.pairs@[j].0 == self.names@[j]
        &&& forall|j: int| 0 <= j < self.pairs@.len() ==> self.range.has(#[trigger] self.pairs@[j].1)
            && self.pairs@[j].1 < self.next
        &&& forall|i: int, j: int| 0 <= i < j < self.pairs@.len() ==> #[trigger] self.pairs@[i].1 < #[trigger] self.pairs@[j].1
        &&& self.probed@.len() == self.next - self.range.start
        &&& free_ports(self.range.start as int, self.probed@).len() == self.pairs@.len()
        &&& forall|j: int| 0 <= j < self.pairs@.len() ==> #[trigger] self.pairs@[j].1 == free_ports(self.range.start as int, self.probed@)[j]
    }

    /// Starts a scan of `range` for the port names `exposed`.
    pub fn new(exposed: &Vec<String>, range: PortRange) -> (r: Self)
        ensures
            r.wf(),
            r.names() == exposed@,
            r.range() == range,
            r.cursor() == range.start,
            r.pairs() == Seq::<(String, u16)>::empty(),
            r.probed() == Seq::<bool>::empty(),
    {
        let mut names: Vec<String> = Vec::new();
        let mut i: usize = 0;
        while i < exposed.len()
            invariant
                i <= exposed@.len(),
                names@ == exposed@.subrange(0, i as int),
            decreases exposed@.len() - i,
        {
            names.push(exposed[i].clone());
            proof {
                assert(exposed@.subrange(0, i + 1) =~= exposed@.subrange(0, i as int).push(exposed@[i as int]));
            }
            i = i + 1;
        }
        proof {
            assert(exposed@.subrange(0, i as int) =~= exposed@);
        }
        PortScan { names, range, next: range.start as u32, pairs: Vec::new(), probed: Ghost(Seq::empty()) }
    }

    /// The port to probe next, or `None` once every name is paired or the range is spent.
    pub fn candidate(&self) -> (r: Option<u16>)
        requires
            self.wf(),
        ensures
            self.finished() ==> r is None,
            !self.finished() ==> r == Some(self.cursor() as u16),
    {
        if self.pairs.len() >= self.names.len() || self.next > self.range.end as u32 {
            None
        } else {
            Some(self.next as u16)
        }
    }

    /// Takes the outcome of probing the current candidate on each bind address: a port
    /// free on all of them is paired with the next unpaired name.
    pub fn record(&mut self, probes: &Vec<bool>)
        requires
            old(self).wf(),
            !old(self).finished(),
        ensures
            final(self).wf(),
            final(self).names() == old(self).names(),
            final(self).range() == old(self).range(),
            final(self).cursor() == old(self).cursor() + 1,
            all_free(probes@) ==> final(self).pairs() == old(self).pairs().push(
                (old(self).names()[old(self).pairs().len() as int], old(self).cursor() as u16),
            ),
            !all_free(probes@) ==> final(self).pairs() == old(self).pairs(),
            final(self).probed() == old(self).probed().push(all_free(probes@)),
    {
        let mut free = true;
        let mut i: usize = 0;
        while i < probes.len()
            invariant
                i <= probes@.len(),
                free == (forall|j: int| 0 <= j < i ==> probes@[j]),
            decreases probes@.len() - i,
        {
            if !probes[i] {
                free = false;
            }
            i = i + 1;
        }
        let port = self.next as u16;
        let ghost prev = self.probed@;
        proof {
            self.probed = Ghost(prev.push(free));
            assert(self.probed@.drop_last() =~= prev);
        }
        if free {
            let k = self.pairs.len();
            let name = self.names[k].clone();
            self.pairs.push((name, port));
        }
        self.next = self.next + 1;
    }

    /// A finished scan pairs the exposed port names, in order, with the free candidates in
    /// ascending order: as many as there are names, or every free candidate of the range
    /// when there are fewer.
    pub proof fn lemma_scan_result(&self)
        requires
            self.wf(),
            self.finished(),
        ensures
            self.pairs().len() == if self.names().len() <= free_ports(self.range().start as int, self.probed()).len() {
                self.names().len() as int
            } else {
                free_ports(self.range().start as int, self.probed()).len() as int
            },
            self.pairs().len() < self.names().len() ==> self.range().start + self.probed().len() > self.range().end,
            forall|j: int| 0 <= j < self.pairs().len() ==> #[trigger] self.pairs()[j].0 == self.names()[j]
                && self.pairs()[j].1 == free_ports(self.range().start as int, self.probed())[j],
    {
    }

    /// The pairs made, each exposed port name with its host port.
    pub fn into_pairs(self) -> (r: Vec<(String, u16)>)
        ensures
            r@ == self.pairs(),
    {
        self.pairs
    }
}

/// An IP address.
#[derive(Debug, Clone, Copy, PartialEq, Eq)]
pub enum IpAddress {
    V4([u8; 4]),
    V6([u16; 8]),
}

/// An address under which instances are advertised, with the range that allocated host
/// ports are shifted into for it, if any.
#[derive(Debug, Clone, Copy)]
pub struct MappedAddr {
    pub addr: IpAddress,
    pub ports: Option<PortRange>,
}

/// A socket address.
#[derive(Debug, Clone, Copy)]
pub struct Endpoint {
    pub addr: IpAddress,
    pub port: u16,
}

/// Why a container configuration was rejected.
#[derive(Debug, Clone, Copy, PartialEq, Eq, Structural)]
pub enum ConfigError {
    /// A remapped range is set while no allocation range is.
    RemapWithoutRange,
    /// A remapped range differs in size from the allocation range.
    RemapSizeMismatch,
}

/// Whether some advertised address remaps its ports.
pub open spec fn any_remap(mapped: Seq<MappedAddr>) -> bool {
    exists|i: int| 0 <= i < mapped.len() && mapped[i].ports is Some
}

/// Whether some remapped range differs in size from `alloc`.
pub open spec fn any_size_mismatch(mapped: Seq<MappedAddr>, alloc: PortRange) -> bool {
    exists|i: int| 0 <= i < mapped.len() && (#[trigger] mapped[i].ports) is Some
        && mapped[i].ports.unwrap().size() != alloc.size()
}

/// Every remapped range has the size of the allocation range, which must then be set.
pub open spec fn mapping_valid(mapped: Seq<MappedAddr>, alloc: Option<PortRange>) -> bool {
    match alloc {
        Some(a) => !any_size_mismatch(mapped, a),
        None => !any_remap(mapped),
    }
}

/// Checks the advertised addresses against the allocation range.
pub fn validate_docker_config(mapped: &Vec<MappedAddr>, alloc: Option<PortRange>) -> (r: Result<(), ConfigError>)
    ensures
        r is Ok <==> mapping_valid(mapped@, alloc),
        r == Err::<(), ConfigError>(ConfigError::RemapWithoutRange) <==> alloc is None && any_remap(mapped@),
        r == Err::<(), ConfigError>(ConfigError::RemapSizeMismatch) <==> alloc is Some && any_size_mismatch(mapped@, alloc.unwrap()),
{
    let mut i: usize = 0;
    while i < mapped.len()
        invariant
            i <= mapped@.len(),
            forall|j: int| 0 <= j < i ==> match #[trigger] mapped@[j].ports {
                Some(m) => alloc is Some && m.size() == alloc.unwrap().size(),
                None => true,
            },
        decreases mapped@.len() - i,
    {
        if let Some(m) = mapped[i].ports {
            match alloc {
                Some(a) => {
                    if m.len() != a.len() {
                        return Err(ConfigError::RemapSizeMismatch);
                    }
                },
                None => {
                    return Err(ConfigError::RemapWithoutRange);
                },
            }
        }
        i = i + 1;
    }
    proof {
        assert(!any_remap(mapped@) || alloc is Some);
        if let Some(a) = alloc {
            assert(!any_size_mismatch(mapped@, a));
        }
    }
    Ok(())
}

/// The port advertised for host port `port` on an address that remaps into `remap`.
pub open spec fn shifted_port(port: u16, alloc: Option<PortRange>, remap: Option<PortRange>) -> int {
    match remap {
        Some(m) => port - alloc.unwrap().start + m.start,
        None => port as int,
    }
}

/// The endpoint under which host port `port` is advertised on `addr`.
pub fn mapped_addr(addr: &MappedAddr, alloc: Option<PortRange>, port: u16) -> (r: Endpoint)
    requires
        addr.ports is Some ==> alloc is Some && alloc.unwrap().has(port)
            && addr.ports.unwrap().size() == alloc.unwrap().size(),
    ensures
        r.addr == addr.addr,
        r.port == shifted_port(port, alloc, addr.ports),
{
    let port = match addr.ports {
        Some(m) => {
            let a = alloc.unwrap();
            port - a.start + m.start
        },
        None => port,
    };
    Endpoint { addr: addr.addr, port }
}

/// The endpoints under which host port `port` is advertised, one per address.
pub fn advertised(mapped: &Vec<MappedAddr>, alloc: Option<PortRange>, port: u16) -> (r: Vec<Endpoint>)
    requires
        mapping_valid(mapped@, alloc),
        alloc is Some ==> alloc.unwrap().has(port),
    ensures
        r@.len() == mapped@.len(),
        forall|i: int| 0 <= i < r@.len() ==> (#[trigger] r@[i]).addr == mapped@[i].addr
            && r@[i].port == shifted_port(port, alloc, mapped@[i].ports),
{
    let mut out: Vec<Endpoint> = Vec::new();
    let mut i: usize = 0;
    while i < mapped.len()
        invariant
            i <= mapped@.len(),
            mapping_valid(mapped@, alloc),
            alloc is Some ==> alloc.unwrap().has(port),
            out@.len() == i,
            forall|j: int| 0 <= j < i ==> (#[trigger] out@[j]).addr == mapped@[j].addr
                && out@[j].port == shifted_port(port, alloc, mapped@[j].ports),
        decreases mapped@.len() - i,
    {
        proof {
            if mapped@[i as int].ports is Some {
                assert(any_remap(mapped@));
                if alloc is Some {
                    assert(!any_size_mismatch(mapped@, alloc.unwrap()));
                    assert(mapped@[i as int].ports.unwrap().size() == alloc.unwrap().size());
                }
            }
        }
        let e = mapped_addr(&mapped[i], alloc, port);
        out.push(e);
        i = i + 1;
    }
    out
}

} // verus!
