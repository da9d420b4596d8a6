//! The list of peers a node knows: `(ip, listening port)` pairs in the order
//! they were first seen, each pair at most once.
use vstd::prelude::*;

verus! {

/// A known peer as the contracts see it: its ip text and listening port.
pub type HostView = (Seq<char>, u16);

/// No peer occurs twice in `hosts`.
pub open spec fn distinct_hosts(hosts: Seq<HostView>) -> bool {
    forall|i: int, j: int| 0 <= i < j < hosts.len() ==> hosts[i] != hosts[j]
}

/// The known hosts after `(ip, port)` has been seen: unchanged when the pair
/// is already known, else the pair appended at the end.
pub open spec fn spec_register(hosts: Seq<HostView>, ip: Seq<char>, port: u16) -> Seq<HostView> {
    if hosts.contains((ip, port)) {
        hosts
    } else {
        hosts.push((ip, port))
    }
}

/// Seeing a peer makes it known, and seeing it again changes nothing.
pub proof fn lemma_register_idempotent(hosts: Seq<HostView>, ip: Seq<char>, port: u16)
    ensures
        spec_register(hosts, ip, port).contains((ip, port)),
        spec_register(spec_register(hosts, ip, port), ip, port) == spec_register(hosts, ip, port),
{
    let after = spec_register(hosts, ip, port);
    if !hosts.contains((ip, port)) {
        assert(after[after.len() - 1] == (ip, port));
    }
}

/// Seeing a peer forgets no known peer: every known peer keeps its place,
/// a new peer makes the list exactly one longer and stands last, and the
/// peers known afterwards are exactly those known before and the one seen.
pub proof fn lemma_register_keeps_known(hosts: Seq<HostView>, ip: Seq<char>, port: u16)
    ensures
        spec_register(hosts, ip, port).len() == hosts.len() + (if hosts.contains((ip, port)) {
            0int
        } else {
            1int
        }),
        forall|i: int| 0 <= i < hosts.len() ==> #[trigger] spec_register(hosts, ip, port)[i] == hosts[i],
        !hosts.contains((ip, port)) ==> spec_register(hosts, ip, port)[hosts.len() as int] == (ip, port),
        forall|h: HostView| #[trigger] spec_register(hosts, ip, port).contains(h) <==> (hosts.contains(h) || h == (ip, port)),
{
    let after = spec_register(hosts, ip, port);
    assert forall|h: HostView| #[trigger] after.contains(h) <==> (hosts.contains(h) || h == (ip, port)) by {
        if after.contains(h) {
            let k = choose|k: int| 0 <= k < after.len() && after[k] == h;
            if k < hosts.len() {
                assert(hosts[k] == h);
            }
        }
        if hosts.contains(h) {
            let k = choose|k: int| 0 <= k < hosts.len() && hosts[k] == h;
            assert(after[k] == h);
        }
        if h == (ip, port) && !hosts.contains(h) {
            assert(after[hosts.len() as int] == h);
        }
    }
}

/// Seeing a peer never makes the known hosts hold a peer twice.
pub proof fn lemma_register_keeps_distinct(hosts: Seq<HostView>, ip: Seq<char>, port: u16)
    requires
        distinct_hosts(hosts),
    ensures
        distinct_hosts(spec_register(hosts, ip, port)),
{
    if !hosts.contains((ip, port)) {
        let after = hosts.push((ip, port));
        assert forall|i: int, j: int| 0 <= i < j < after.len() implies after[i] != after[j] by {
            if j == after.len() - 1 {
                assert(after[i] == hosts[i]);
            }
        }
    }
}

/// A host as the contracts see it.
pub open spec fn host_view(h: (String, u16)) -> HostView {
    (h.0@, h.1)
}

/// The peers a node knows, in the order they were first seen, each once.
pub struct KnownHosts {
    entries: Vec<(String, u16)>,
}

impl View for KnownHosts {
    type V = Seq<HostView>;

    closed spec fn view(&self) -> Seq<HostView> {
        self.entries@.map_values(|h: (String, u16)| host_view(h))
    }
}

impl KnownHosts {
    #[verifier::type_invariant]
    closed spec fn no_duplicates(self) -> bool {
        distinct_hosts(self@)
    }

    /// An empty list: a node starts out knowing no peer.
    pub fn new() -> (hosts: Self)
        ensures
            hosts@ == Seq::<HostView>::empty(),
    {
        let hosts = KnownHosts { entries: Vec::new() };
        assert(hosts@ =~= Seq::<HostView>::empty());
        hosts
    }

    /// How many peers are known.
    pub fn len(&self) -> (n: usize)
        ensures
            n == self@.len(),
    {
        self.entries.len()
    }

    /// Whether no peer is known.
    pub fn is_empty(&self) -> (empty: bool)
        ensures
            empty == (self@.len() == 0),
    {
        self.entries.len() == 0
    }

    /// Whether `(ip, port)` is a known peer.
    pub fn contains(&self, ip: &String, port: u16) -> (found: bool)
        ensures
            found == self@.contains((ip@, port)),
    {
        let n = self.entries.len();
        let mut i: usize = 0;
        while i < n
            invariant
                n == self.entries@.len(),
                0 <= i <= n,
                forall|j: int| 0 <= j < i ==> self@[j] != (ip@, port),
            decreases n - i,
        {
            let entry = &self.entries[i];
            if entry.1 == port && entry.0 == *ip {
                assert(self@[i as int] == (ip@, port));
                return true;
            }
            assert(self@[i as int] == host_view(self.entries@[i as int]));
            i = i + 1;
        }
        proof {
            if self@.contains((ip@, port)) {
                let k = choose|k: int| 0 <= k < self@.len() && self@[k] == (ip@, port);
                assert(self@[k] != (ip@, port));
            }
        }
        false
    }

    /// Records that a peer listens at `(ip, port)`. Returns whether the peer
    /// was new: a new peer is appended, a known one leaves the list unchanged.
    pub fn register(&mut self, ip: String, port: u16) -> (added: bool)
        ensures
            added == !old(self)@.contains((ip@, port)),
            final(self)@ == spec_register(old(self)@, ip@, port),
            final(self)@.contains((ip@, port)),
            distinct_hosts(final(self)@),
            final(self)@.len() == old(self)@.len() + (if added {
                1int
            } else {
                0int
            }),
            forall|i: int| 0 <= i < old(self)@.len() ==> #[trigger] final(self)@[i] == old(self)@[i],
    {
        proof {
            use_type_invariant(&*self);
            lemma_register_keeps_known(self@, ip@, port);
        }
        if self.contains(&ip, port) {
            return false;
        }
        let ghost before = self@;
        let mut entries: Vec<(String, u16)> = Vec::new();
        std::mem::swap(&mut entries, &mut self.entries);
        assert(entries@.map_values(|h: (String, u16)| host_view(h)) == before);
        let ghost ipv = ip@;
        entries.push((ip, port));
        assert(entries@.map_values(|h: (String, u16)| host_view(h)) =~= before.push((ipv, port)));
        proof {
            lemma_register_keeps_distinct(before, ipv, port);
        }
        self.entries = entries;
        assert(self@.last() == (ipv, port));
        true
    }

    /// A copy of the known peers, in order, as the node takes one before
    /// sending to each of them.
    pub fn to_vec(&self) -> (peers: Vec<(String, u16)>)
        ensures
            peers@.map_values(|h: (String, u16)| host_view(h)) == self@,
            distinct_hosts(self@),
    {
        proof {
            use_type_invariant(self);
        }
        let n = self.entries.len();
        let mut peers: Vec<(String, u16)> = Vec::new();
        let mut i: usize = 0;
        while i < n
            invariant
                n == self.entries@.len(),
                0 <= i <= n,
                peers@.len() == i,
                forall|j: int| 0 <= j < i ==> host_view(#[trigger] peers@[j]) == self@[j],
            decreases n - i,
        {
            let entry = &self.entries[i];
            let ip = entry.0.clone();
            peers.push((ip, entry.1));
            i = i + 1;
        }
        assert(peers@.map_values(|h: (String, u16)| host_view(h)) =~= self@);
        peers
    }
}

} // verus!
