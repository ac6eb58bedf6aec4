//! The port pool: a fixed range of port numbers, each either free or
//! leased to a (service, user) pair.

use crate::protocol::{decimal_text, row_text};
use vstd::prelude::*;

verus! {

/// What a leased port is, mathematically.
pub ghost struct UsedPortView {
    pub port: u16,
    pub service: Seq<char>,
    pub user: Seq<char>,
}

/// A leased port: its number and the service and user it is advertised for.
pub struct UsedPort {
    port_number: u16,
    port_service: String,
    port_user: String,
}

impl View for UsedPort {
    type V = UsedPortView;

    closed spec fn view(&self) -> UsedPortView {
        UsedPortView { port: self.port_number, service: self.port_service@, user: self.port_user@ }
    }
}

impl UsedPort {
    pub fn new(n: u16, service: &str, user: &str) -> (r: UsedPort)
        ensures
            r@ == (UsedPortView { port: n, service: service@, user: user@ }),
    {
        UsedPort {
            port_number: n,
            port_service: String::from_str(service),
            port_user: String::from_str(user),
        }
    }

    pub fn port(&self) -> (r: u16)
        ensures
            r == self@.port,
    {
        self.port_number
    }

    pub fn service(&self) -> (r: String)
        ensures
            r@ == self@.service,
    {
        self.port_service.clone()
    }

    pub fn user(&self) -> (r: String)
        ensures
            r@ == self@.user,
    {
        self.port_user.clone()
    }

    /// The lease as one line of a listing, without its newline.
    pub fn to_text(&self) -> (r: String)
        ensures
            r@ == row_text(self@),
    {
        let mut r = decimal_text(self.port_number as u64);
        r.append(" ");
        r.append(self.port_service.as_str());
        r.append(" ");
        r.append(self.port_user.as_str());
        r
    }
}

/// What a lease records besides its port number.
pub ghost struct Lease {
    pub service: Seq<char>,
    pub user: Seq<char>,
}

/// The pool, mathematically: the range `[base, base + count)` and the
/// leases, keyed by port number. Every port of the range that holds no
/// lease is free.
pub ghost struct PoolModel {
    pub base: u16,
    pub count: u16,
    pub leases: Map<u16, Lease>,
}

/// Why an allocation fails when no port is free.
pub open spec fn exhausted_reason() -> Seq<char> {
    "No free ports available"@
}

/// Why an allocation fails when its pair already holds a lease.
pub open spec fn duplicate_reason() -> Seq<char> {
    "Duplicate port allocation attempted"@
}

/// Why freeing a port that is not leased fails.
pub open spec fn not_leased_reason() -> Seq<char> {
    "Port is not allocated"@
}

impl UsedPortView {
    /// The lease this port carries.
    pub open spec fn lease(self) -> Lease {
        Lease { service: self.service, user: self.user }
    }
}

impl PoolModel {
    pub open spec fn in_range(self, p: u16) -> bool {
        self.base <= p < self.base + self.count
    }

    pub open spec fn is_free(self, p: u16) -> bool {
        self.in_range(p) && !self.leases.contains_key(p)
    }

    pub open spec fn free_ports(self) -> Set<u16> {
        Set::new(|p: u16| self.is_free(p))
    }

    /// Some lease is held under exactly this (service, user) pair.
    pub open spec fn holds_pair(self, service: Seq<char>, user: Seq<char>) -> bool {
        exists|p: u16|
            #![trigger self.leases[p]]
            self.leases.contains_key(p) && self.leases[p] == (Lease { service, user })
    }

    /// `p` is the lowest-numbered free port.
    pub open spec fn is_lowest_free(self, p: u16) -> bool {
        self.is_free(p) && forall|q: u16| #[trigger] self.is_free(q) ==> p <= q
    }

    /// Every leased port lies in the range, and no two leases share a
    /// (service, user) pair.
    pub open spec fn wf(self) -> bool {
        &&& self.base + self.count <= 65536
        &&& forall|p: u16| #[trigger] self.leases.contains_key(p) ==> self.in_range(p)
        &&& forall|p: u16, q: u16|
            #![trigger self.leases[p], self.leases[q]]
            self.leases.contains_key(p) && self.leases.contains_key(q) && self.leases[p]
                == self.leases[q] ==> p == q
    }

    /// The lowest-numbered free port (meaningful when one is free).
    pub open spec fn lowest_free(self) -> u16 {
        choose|p: u16| self.is_lowest_free(p)
    }

    /// The outcome of allocating for (service, user): no port free fails as
    /// exhausted; else a lease already held under the pair fails as a
    /// duplicate; else the lowest free port is taken.
    pub open spec fn allocation(self, service: Seq<char>, user: Seq<char>) -> Result<u16, Seq<char>> {
        if self.free_ports().is_empty() {
            Err(exhausted_reason())
        } else if self.holds_pair(service, user) {
            Err(duplicate_reason())
        } else {
            Ok(self.lowest_free())
        }
    }

    /// The pool after allocating for (service, user).
    pub open spec fn after_allocation(self, service: Seq<char>, user: Seq<char>) -> PoolModel {
        match self.allocation(service, user) {
            Ok(p) => self.with_lease(p, service, user),
            Err(_) => self,
        }
    }

    /// The outcome of freeing `port`: it fails unless `port` is leased.
    pub open spec fn release(self, port: u16) -> Result<u16, Seq<char>> {
        if self.leases.contains_key(port) {
            Ok(port)
        } else {
            Err(not_leased_reason())
        }
    }

    /// The pool after freeing `port`.
    pub open spec fn after_release(self, port: u16) -> PoolModel {
        if self.leases.contains_key(port) {
            self.without_lease(port)
        } else {
            self
        }
    }

    pub open spec fn with_lease(self, p: u16, service: Seq<char>, user: Seq<char>) -> PoolModel {
        PoolModel { leases: self.leases.insert(p, Lease { service, user }), ..self }
    }

    pub open spec fn without_lease(self, p: u16) -> PoolModel {
        PoolModel { leases: self.leases.remove(p), ..self }
    }

    /// `rows` lists the leases exactly once each, ascending by port.
    pub open spec fn lists(self, rows: Seq<UsedPortView>) -> bool {
        &&& forall|i: int, j: int| 0 <= i < j < rows.len() ==> rows[i].port < rows[j].port
        &&& forall|i: int|
            0 <= i < rows.len() ==> self.leases.contains_key(#[trigger] rows[i].port)
                && self.leases[rows[i].port] == rows[i].lease()
        &&& forall|p: u16|
            #[trigger] self.leases.contains_key(p) ==> exists|i: int|
                0 <= i < rows.len() && #[trigger] rows[i].port == p
    }
}

/// A pool of port numbers: slot `i` stands for port `base + i` and holds
/// its lease, if any.
pub struct PortPool {
    base: u16,
    count: u16,
    slots: Vec<Option<UsedPort>>,
}

impl View for PortPool {
    type V = PoolModel;

    closed spec fn view(&self) -> PoolModel {
        PoolModel {
            base: self.base,
            count: self.count,
            leases: Map::new(
                |p: u16| self.base <= p < self.base + self.count && self.slots@[p - self.base] is Some,
                |p: u16| self.slots@[p - self.base]->Some_0@.lease(),
            ),
        }
    }
}

impl PortPool {
    /// The model is well formed, and the slots lay it out.
    pub open spec fn wf(&self) -> bool {
        self@.wf() && self.slots_match()
    }

    /// There is one slot per port of the range, and each lease sits in the
    /// slot of its port.
    pub closed spec fn slots_match(&self) -> bool {
        &&& self.slots@.len() == self.count
        &&& forall|i: int|
            0 <= i < self.slots@.len() && #[trigger] self.slots@[i] is Some ==> self.slots@[i]->Some_0@.port
                == self.base + i
    }

    ///
    /// Create a new port pool: `start` is the first port and `n` the number
    /// of ports in the pool. All of them are free.
    ///
    pub fn new(start: u16, n: u16) -> (r: PortPool)
        requires
            start + n <= 65536,
        ensures
            r.wf(),
            r@.base == start,
            r@.count == n,
            r@.leases.is_empty(),
    {
        let mut slots: Vec<Option<UsedPort>> = Vec::new();
        let mut i: u16 = 0;
        while i < n
            invariant
                i <= n,
                slots@.len() == i,
                forall|j: int| 0 <= j < i ==> slots@[j] is None,
            decreases n - i,
        {
            slots.push(None);
            i = i + 1;
        }
        let r = PortPool { base: start, count: n, slots };
        assert(r@.leases =~= Map::empty());
        r
    }

    /// The number of leased ports.
    pub fn used_count(&self) -> (r: usize)
        requires
            self.wf(),
        ensures
            r == self@.leases.dom().len(),
    {
        proof {
            lemma_free_count(self@);
            assert(leased_below(self@, self.base as int) =~= Set::empty());
        }
        let mut n: usize = 0;
        let mut i: usize = 0;
        while i < self.slots.len()
            invariant
                self.wf(),
                i <= self.slots@.len(),
                n <= i,
                self@.leases.dom().finite(),
                n == leased_below(self@, self.base + i).len(),
                leased_below(self@, self.base + i).finite(),
            decreases self.slots@.len() - i,
        {
            let ghost below = leased_below(self@, self.base + i);
            let ghost p = (self.base + i) as u16;
            proof {
                vstd::set_lib::lemma_len_subset(below, self@.leases.dom());
            }
            if self.slots[i].is_some() {
                assert(leased_below(self@, self.base + i + 1) =~= below.insert(p));
                n = n + 1;
            } else {
                assert(leased_below(self@, self.base + i + 1) =~= below);
            }
            i = i + 1;
        }
        assert(leased_below(self@, self.base + i) =~= self@.leases.dom());
        n
    }

    /// The number of free ports.
    pub fn unused_count(&self) -> (r: usize)
        requires
            self.wf(),
        ensures
            r == self@.free_ports().len(),
    {
        proof {
            lemma_free_count(self@);
        }
        let used = self.used_count();
        (self.count as usize) - used
    }

    // Mark the port of `lease` as used, recording the lease in its slot.
    fn mark_used(&mut self, lease: UsedPort)
        requires
            old(self).wf(),
            old(self)@.is_free(lease@.port),
            !old(self)@.holds_pair(lease@.service, lease@.user),
        ensures
            final(self).wf(),
            final(self)@ == old(self)@.with_lease(lease@.port, lease@.service, lease@.user),
    {
        let ghost p = lease@.port;
        let ghost pre = self@;
        let i = (lease.port_number - self.base) as usize;
        self.slots[i] = Some(lease);
        proof {
            assert(self@.leases =~= pre.leases.insert(p, Lease { service: lease@.service, user: lease@.user }));
            lemma_with_lease_wf(pre, p, lease@.service, lease@.user);
        }
    }

    // The lowest-numbered free port, if any port is free.
    fn get_unused(&self) -> (r: Option<u16>)
        requires
            self.wf(),
        ensures
            r is None <==> self@.free_ports().is_empty(),
            r matches Some(p) ==> self@.is_lowest_free(p),
    {
        let mut i: usize = 0;
        while i < self.slots.len()
            invariant
                self.wf(),
                i <= self.slots@.len(),
                forall|j: int| 0 <= j < i ==> #[trigger] self.slots@[j] is Some,
            decreases self.slots@.len() - i,
        {
            if self.slots[i].is_none() {
                let p = self.base + i as u16;
                assert(self@.is_free(p));
                assert forall|q: u16| #[trigger] self@.is_free(q) implies p <= q by {
                    if q < p {
                        assert(self.slots@[q - self.base] is Some);
                    }
                }
                assert(self@.free_ports().contains(p));
                return Some(p);
            }
            i = i + 1;
        }
        assert forall|q: u16| !self@.free_ports().contains(q) by {
            if self@.is_free(q) {
                assert(self.slots@[q - self.base] is Some);
            }
        }
        assert(self@.free_ports() =~= Set::empty());
        None
    }

    // True if a port is already leased under the (service, user) pair.
    fn in_use(&self, service: &str, user: &str) -> (r: bool)
        requires
            self.wf(),
        ensures
            r == self@.holds_pair(service@, user@),
    {
        let s = String::from_str(service);
        let u = String::from_str(user);
        let mut i: usize = 0;
        while i < self.slots.len()
            invariant
                self.wf(),
                i <= self.slots@.len(),
                s@ == service@,
                u@ == user@,
                forall|j: int|
                    0 <= j < i && #[trigger] self.slots@[j] is Some ==> self.slots@[j]->Some_0@.lease()
                        != (Lease { service: service@, user: user@ }),
            decreases self.slots@.len() - i,
        {
            if let Some(lease) = &self.slots[i] {
                if lease.port_service == s && lease.port_user == u {
                    let ghost p = (self.base + i) as u16;
                    assert(self@.leases.contains_key(p));
                    assert(self@.leases[p] == (Lease { service: service@, user: user@ }));
                    return true;
                }
            }
            i = i + 1;
        }
        assert forall|p: u16|
            #![trigger self@.leases[p]]
            self@.leases.contains_key(p) implies self@.leases[p] != (Lease {
                service: service@,
                user: user@,
            }) by {
            assert(self.slots@[p - self.base] is Some);
        }
        false
    }

    ///
    /// Allocate the lowest free port of the pool to the service `service`
    /// of the user `user`. Fails, leaving the pool as it was, when no port is
    /// free, or else when a lease is already held under the same pair.
    ///
    pub fn allocate(&mut self, service: &str, user: &str) -> (r: Result<UsedPort, String>)
        requires
            old(self).wf(),
        ensures
            final(self).wf(),
            final(self)@ == old(self)@.after_allocation(service@, user@),
            match r {
                Ok(u) => old(self)@.allocation(service@, user@) == Ok::<u16, Seq<char>>(u@.port)
                    && u@.service == service@ && u@.user == user@,
                Err(e) => old(self)@.allocation(service@, user@) == Err::<u16, Seq<char>>(e@),
            },
    {
        match self.get_unused() {
            None => Err(String::from_str("No free ports available")),
            Some(port) => {
                if self.in_use(service, user) {
                    return Err(String::from_str("Duplicate port allocation attempted"));
                }
                proof {
                    lemma_lowest_free(self@);
                }
                self.mark_used(UsedPort::new(port, service, user));
                Ok(UsedPort::new(port, service, user))
            },
        }
    }

    ///
    /// The leases of the pool, ascending by port number.
    ///
    pub fn usage(&self) -> (r: Vec<UsedPort>)
        requires
            self.wf(),
        ensures
            self@.lists(r@.map_values(|u: UsedPort| u@)),
    {
        let mut r: Vec<UsedPort> = Vec::new();
        let mut i: usize = 0;
        while i < self.slots.len()
            invariant
                self.wf(),
                i <= self.slots@.len(),
                forall|a: int, b: int| 0 <= a < b < r@.len() ==> r@[a]@.port < r@[b]@.port,
                forall|a: int|
                    0 <= a < r@.len() ==> self@.leases.contains_key(#[trigger] r@[a]@.port)
                        && self@.leases[r@[a]@.port] == r@[a]@.lease() && r@[a]@.port < self.base + i,
                forall|p: u16|
                    #[trigger] self@.leases.contains_key(p) && p < self.base + i ==> exists|a: int|
                        0 <= a < r@.len() && #[trigger] r@[a]@.port == p,
            decreases self.slots@.len() - i,
        {
            let ghost before = r@;
            if let Some(lease) = &self.slots[i] {
                let row = UsedPort::new(lease.port_number, lease.port_service.as_str(), lease.port_user.as_str());
                let ghost p = row@.port;
                assert(self@.leases.contains_key(p));
                r.push(row);
                assert(r@[r@.len() - 1]@.port == p);
            }
            assert forall|p: u16|
                #[trigger] self@.leases.contains_key(p) && p < self.base + i + 1 implies exists|a: int|
                    0 <= a < r@.len() && #[trigger] r@[a]@.port == p by {
                if p < self.base + i {
                    let a = choose|a: int| 0 <= a < before.len() && #[trigger] before[a]@.port == p;
                    assert(r@[a] == before[a]);
                } else {
                    assert(self.slots@[i as int] is Some);
                    assert(r@[r@.len() - 1]@.port == p);
                }
            }
            i = i + 1;
        }
        let ghost rows = r@.map_values(|u: UsedPort| u@);
        assert forall|p: u16| #[trigger] self@.leases.contains_key(p) implies exists|a: int|
            0 <= a < rows.len() && #[trigger] rows[a].port == p by {
            let a = choose|a: int| 0 <= a < r@.len() && #[trigger] r@[a]@.port == p;
            assert(rows[a].port == p);
        }
        r
    }

    ///
    /// Return the leased port `port` to the free ports. Fails, leaving the
    /// pool as it was, when `port` is not leased.
    ///
    pub fn free(&mut self, port: u16) -> (r: Result<u16, String>)
        requires
            old(self).wf(),
        ensures
            final(self).wf(),
            final(self)@ == old(self)@.after_release(port),
            match r {
                Ok(p) => old(self)@.release(port) == Ok::<u16, Seq<char>>(p),
                Err(e) => old(self)@.release(port) == Err::<u16, Seq<char>>(e@),
            },
    {
        if port < self.base || port - self.base >= self.count {
            return Err(String::from_str("Port is not allocated"));
        }
        let i = (port - self.base) as usize;
        if self.slots[i].is_none() {
            return Err(String::from_str("Port is not allocated"));
        }
        let ghost pre = self@;
        self.slots[i] = None;
        assert(self@.leases =~= pre.leases.remove(port));
        Ok(port)
    }
}


/// When some port is free, exactly one of them is the lowest.
pub proof fn lemma_lowest_free(m: PoolModel)
    requires
        !m.free_ports().is_empty(),
    ensures
        m.is_lowest_free(m.lowest_free()),
        forall|p: u16| m.is_lowest_free(p) ==> p == m.lowest_free(),
{
    let q = m.free_ports().choose();
    assert(m.free_ports().contains(q));
    lowest_free_exists(m, q);
}

proof fn lowest_free_exists(m: PoolModel, q: u16)
    requires
        m.is_free(q),
    ensures
        exists|p: u16| m.is_lowest_free(p),
    decreases q,
{
    if !m.is_lowest_free(q) {
        let r = choose|r: u16| #[trigger] m.is_free(r) && !(q <= r);
        lowest_free_exists(m, r);
    }
}

/// The leased ports below `limit`.
spec fn leased_below(m: PoolModel, limit: int) -> Set<u16> {
    Set::new(|p: u16| m.leases.contains_key(p) && p < limit)
}

/// The port numbers `[base, base + count)`.
pub open spec fn port_range(base: u16, count: nat) -> Set<u16> {
    Set::new(|p: u16| base <= p < base + count)
}

/// A range of `count` port numbers has `count` members.
pub proof fn lemma_port_range_len(base: u16, count: nat)
    requires
        base + count <= 65536,
    ensures
        port_range(base, count).finite(),
        port_range(base, count).len() == count,
    decreases count,
{
    if count == 0 {
        assert(port_range(base, count) =~= Set::empty());
    } else {
        let last = (base + count - 1) as u16;
        lemma_port_range_len(base, (count - 1) as nat);
        assert(port_range(base, count) =~= port_range(base, (count - 1) as nat).insert(last));
    }
}

/// The free ports and the leased ports together make up the range: in a
/// pool of `count` ports, the number of free ports is `count` less the
/// number of leases. So the pool is exhausted exactly when `count` ports are
/// leased.
pub proof fn lemma_free_count(m: PoolModel)
    requires
        m.wf(),
    ensures
        m.leases.dom().finite(),
        m.free_ports().finite(),
        m.free_ports().len() + m.leases.dom().len() == m.count,
        m.free_ports().is_empty() <==> m.leases.dom().len() == m.count,
{
    let range = port_range(m.base, m.count as nat);
    lemma_port_range_len(m.base, m.count as nat);
    vstd::set_lib::lemma_len_subset(m.leases.dom(), range);
    vstd::set_lib::lemma_len_subset(m.free_ports(), range);
    assert(m.free_ports() + m.leases.dom() =~= range);
    assert(m.free_ports().disjoint(m.leases.dom()));
    vstd::set_lib::lemma_set_disjoint_lens(m.free_ports(), m.leases.dom());
    if m.free_ports().len() != 0 {
        assert(!m.free_ports().is_empty());
    }
}

/// Granting a free port to a pair that holds no lease keeps the pool well
/// formed: the pairs stay unique.
proof fn lemma_with_lease_wf(m: PoolModel, p: u16, service: Seq<char>, user: Seq<char>)
    requires
        m.wf(),
        m.is_free(p),
        !m.holds_pair(service, user),
    ensures
        m.with_lease(p, service, user).wf(),
{
    let n = m.with_lease(p, service, user);
    assert forall|a: u16, b: u16|
        #![trigger n.leases[a], n.leases[b]]
        n.leases.contains_key(a) && n.leases.contains_key(b) && n.leases[a] == n.leases[b] implies a
        == b by {
        if a != p && b != p {
            assert(m.leases[a] == m.leases[b]);
        } else if a != p {
            assert(m.leases.contains_key(a) && m.leases[a] == m.leases[a]);
        } else if b != p {
            assert(m.leases.contains_key(b) && m.leases[b] == m.leases[b]);
        }
    }
}

/// Taking a lease away keeps the pool well formed.
proof fn lemma_without_lease_wf(m: PoolModel, p: u16)
    requires
        m.wf(),
    ensures
        m.without_lease(p).wf(),
{
    let n = m.without_lease(p);
    assert forall|a: u16, b: u16|
        #![trigger n.leases[a], n.leases[b]]
        n.leases.contains_key(a) && n.leases.contains_key(b) && n.leases[a] == n.leases[b] implies a
        == b by {
        assert(m.leases[a] == m.leases[b]);
    }
}

/// Each successful allocation takes exactly one port from the free ports
/// and adds one lease.
pub proof fn lemma_allocation_takes_one(m: PoolModel, service: Seq<char>, user: Seq<char>)
    requires
        m.wf(),
        m.allocation(service, user) is Ok,
    ensures
        m.after_allocation(service, user).wf(),
        m.after_allocation(service, user).free_ports().len() + 1 == m.free_ports().len(),
        m.after_allocation(service, user).leases.dom().len() == m.leases.dom().len() + 1,
{
    lemma_lowest_free(m);
    let p = m.lowest_free();
    let n = m.after_allocation(service, user);
    lemma_free_count(m);
    assert(n.free_ports() =~= m.free_ports().remove(p));
    assert(n.leases.dom() =~= m.leases.dom().insert(p));
    lemma_with_lease_wf(m, p, service, user);
}

/// Freeing the port that an allocation just took succeeds and gives back
/// the pool as it was: that port is free again, and it is the port that the
/// next allocation for any pair not leased takes.
pub proof fn lemma_free_undoes_allocation(m: PoolModel, service: Seq<char>, user: Seq<char>, p: u16)
    requires
        m.wf(),
        m.allocation(service, user) == Ok::<u16, Seq<char>>(p),
    ensures
        m.after_allocation(service, user).release(p) == Ok::<u16, Seq<char>>(p),
        m.after_allocation(service, user).after_release(p) == m,
        forall|s: Seq<char>, u: Seq<char>|
            !m.holds_pair(s, u) ==> #[trigger] m.after_allocation(service, user).after_release(
                p,
            ).allocation(s, u) == Ok::<u16, Seq<char>>(p),
{
    lemma_lowest_free(m);
    assert(m.after_allocation(service, user).after_release(p).leases =~= m.leases);
}

/// Freeing a leased port makes it free; when it is then the lowest free
/// port, the next allocation for a pair that holds no lease takes it.
pub proof fn lemma_freed_port_reused(m: PoolModel, p: u16, service: Seq<char>, user: Seq<char>)
    requires
        m.wf(),
        m.leases.contains_key(p),
    ensures
        m.release(p) == Ok::<u16, Seq<char>>(p),
        m.after_release(p).wf(),
        m.after_release(p).is_free(p),
        m.after_release(p).is_lowest_free(p) && !m.after_release(p).holds_pair(service, user)
            ==> m.after_release(p).allocation(service, user) == Ok::<u16, Seq<char>>(p),
{
    let n = m.after_release(p);
    lemma_without_lease_wf(m, p);
    assert(n.free_ports().contains(p));
    if n.is_lowest_free(p) {
        lemma_lowest_free(n);
    }
}

/// While a lease is held under a (service, user) pair, allocating again for
/// that pair fails (as a duplicate, when a port is free); once that lease's
/// port is freed, the pair can be allocated again.
pub proof fn lemma_pair_released_by_free(m: PoolModel, service: Seq<char>, user: Seq<char>, p: u16)
    requires
        m.wf(),
        m.allocation(service, user) == Ok::<u16, Seq<char>>(p),
    ensures
        m.after_allocation(service, user).holds_pair(service, user),
        m.after_allocation(service, user).allocation(service, user) is Err,
        !m.after_allocation(service, user).free_ports().is_empty() ==> m.after_allocation(
            service,
            user,
        ).allocation(service, user) == Err::<u16, Seq<char>>(duplicate_reason()),
        !m.after_allocation(service, user).after_release(p).holds_pair(service, user),
        m.after_allocation(service, user).after_release(p).allocation(service, user) == Ok::<
            u16,
            Seq<char>,
        >(p),
{
    lemma_lowest_free(m);
    let n = m.after_allocation(service, user);
    assert(n.leases[p] == (Lease { service, user }));
    assert(n.after_release(p).leases =~= m.leases);
}

/// The pool after allocating for each (service, user) pair of `pairs` in
/// turn.
pub open spec fn after_allocations(m: PoolModel, pairs: Seq<(Seq<char>, Seq<char>)>) -> PoolModel
    decreases pairs.len(),
{
    if pairs.len() == 0 {
        m
    } else {
        after_allocations(m, pairs.drop_last()).after_allocation(pairs.last().0, pairs.last().1)
    }
}

/// No pair occurs twice in `pairs`.
pub open spec fn distinct_pairs(pairs: Seq<(Seq<char>, Seq<char>)>) -> bool {
    forall|i: int, j: int| 0 <= i < j < pairs.len() ==> pairs[i] != pairs[j]
}

/// Allocating for distinct pairs in turn, from a pool with no lease and no
/// more pairs than ports: each allocation succeeds, and each lease belongs
/// to one of the pairs.
proof fn lemma_allocations_succeed(m: PoolModel, pairs: Seq<(Seq<char>, Seq<char>)>)
    requires
        m.wf(),
        m.leases == Map::<u16, Lease>::empty(),
        pairs.len() <= m.count,
        distinct_pairs(pairs),
    ensures
        after_allocations(m, pairs).wf(),
        after_allocations(m, pairs).base == m.base,
        after_allocations(m, pairs).count == m.count,
        after_allocations(m, pairs).leases.dom().len() == pairs.len(),
        forall|p: u16|
            #[trigger] after_allocations(m, pairs).leases.contains_key(p) ==> exists|i: int|
                0 <= i < pairs.len() && after_allocations(m, pairs).leases[p] == (Lease {
                    service: pairs[i].0,
                    user: pairs[i].1,
                }),
        pairs.len() > 0 ==> after_allocations(m, pairs.drop_last()).allocation(
            pairs.last().0,
            pairs.last().1,
        ) is Ok,
    decreases pairs.len(),
{
    if pairs.len() == 0 {
        assert(m.leases.dom() =~= Set::empty());
    } else {
        let rest = pairs.drop_last();
        let (service, user) = pairs.last();
        assert(distinct_pairs(rest));
        lemma_allocations_succeed(m, rest);
        let prev = after_allocations(m, rest);
        if prev.holds_pair(service, user) {
            let p = choose|p: u16| #[trigger]
                prev.leases[p] == (Lease { service, user }) && prev.leases.contains_key(p);
            let i = choose|i: int|
                0 <= i < rest.len() && prev.leases[p] == (Lease { service: rest[i].0, user: rest[i].1 });
            assert(pairs[i] == pairs[pairs.len() - 1]);
        }
        lemma_free_count(prev);
        assert(prev.allocation(service, user) is Ok);
        lemma_allocation_takes_one(prev, service, user);
        lemma_lowest_free(prev);
        let q = prev.lowest_free();
        let n = after_allocations(m, pairs);
        assert forall|p: u16| #[trigger] n.leases.contains_key(p) implies exists|i: int|
            0 <= i < pairs.len() && n.leases[p] == (Lease { service: pairs[i].0, user: pairs[i].1 }) by {
            if p == q {
                assert(n.leases[p] == (Lease { service: pairs[pairs.len() - 1].0, user: pairs[pairs.len() - 1].1 }));
            } else {
                let i = choose|i: int|
                    0 <= i < rest.len() && prev.leases[p] == (Lease { service: rest[i].0, user: rest[i].1 });
                assert(n.leases[p] == (Lease { service: pairs[i].0, user: pairs[i].1 }));
            }
        }
    }
}

/// In a pool of `count` ports with no lease, allocating for `count` distinct
/// (service, user) pairs in turn succeeds every time; the ports taken are
/// then the whole range, no port is free, and any further allocation fails
/// as exhausted.
pub proof fn lemma_n_allocations_exhaust(m: PoolModel, pairs: Seq<(Seq<char>, Seq<char>)>)
    requires
        m.wf(),
        m.leases == Map::<u16, Lease>::empty(),
        pairs.len() == m.count,
        distinct_pairs(pairs),
    ensures
        forall|i: int|
            0 <= i < pairs.len() ==> #[trigger] after_allocations(m, pairs.take(i)).allocation(
                pairs[i].0,
                pairs[i].1,
            ) is Ok,
        after_allocations(m, pairs).leases.dom() == port_range(m.base, m.count as nat),
        after_allocations(m, pairs).free_ports().is_empty(),
        forall|service: Seq<char>, user: Seq<char>|
            #[trigger] after_allocations(m, pairs).allocation(service, user) == Err::<u16, Seq<char>>(
                exhausted_reason(),
            ),
{
    assert forall|i: int| 0 <= i < pairs.len() implies #[trigger] after_allocations(
        m,
        pairs.take(i),
    ).allocation(pairs[i].0, pairs[i].1) is Ok by {
        let prefix = pairs.take(i + 1);
        assert(prefix.drop_last() =~= pairs.take(i));
        assert(distinct_pairs(prefix));
        lemma_allocations_succeed(m, prefix);
    }
    lemma_allocations_succeed(m, pairs);
    let n = after_allocations(m, pairs);
    lemma_free_count(n);
    assert forall|p: u16| n.leases.dom().contains(p) == port_range(m.base, m.count as nat).contains(p) by {
        if port_range(m.base, m.count as nat).contains(p) && !n.leases.contains_key(p) {
            assert(n.free_ports().contains(p));
        }
    }
    assert(n.leases.dom() =~= port_range(m.base, m.count as nat));
}

} // verus!
