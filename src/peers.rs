//! The table of known remote endpoints, keyed by host.
use vstd::prelude::*;

use crate::endpoint::Endpoint;

verus! {

/// Whether some entry of `s` has host `h`.
pub open spec fn has_host(s: Seq<Endpoint>, h: u32) -> bool {
    exists|i: int| 0 <= i < s.len() && #[trigger] s[i].host == h
}

/// A table for the node at `local`: no entry has the local host, and no two
/// entries share a host.
pub open spec fn table_ok(local: Endpoint, s: Seq<Endpoint>) -> bool {
    &&& forall|i: int| 0 <= i < s.len() ==> #[trigger] s[i].host != local.host
    &&& forall|i: int, j: int|
        0 <= i < s.len() && 0 <= j < s.len() && i != j ==> #[trigger] s[i].host != #[trigger] s[j].host
}

/// `s` after an insert-if-absent of `e`: nothing changes when `e` has the
/// local host or a host already present, else `e` comes last.
pub open spec fn upserted(local: Endpoint, s: Seq<Endpoint>, e: Endpoint) -> Seq<Endpoint> {
    if e.host == local.host || has_host(s, e.host) {
        s
    } else {
        s.push(e)
    }
}

/// `s` after an insert-if-absent of each entry of `list`, in order.
pub open spec fn merged(local: Endpoint, s: Seq<Endpoint>, list: Seq<Endpoint>) -> Seq<Endpoint>
    decreases list.len(),
{
    if list.len() == 0 {
        s
    } else {
        upserted(local, merged(local, s, list.drop_last()), list.last())
    }
}

/// The entries of `s` whose host is not `h`, in order.
pub open spec fn without_host(s: Seq<Endpoint>, h: u32) -> Seq<Endpoint>
    decreases s.len(),
{
    if s.len() == 0 {
        s
    } else if s.last().host == h {
        without_host(s.drop_last(), h)
    } else {
        without_host(s.drop_last(), h).push(s.last())
    }
}

/// An insert-if-absent keeps a table valid.
pub proof fn lemma_upserted_ok(local: Endpoint, s: Seq<Endpoint>, e: Endpoint)
    requires
        table_ok(local, s),
    ensures
        table_ok(local, upserted(local, s, e)),
{
    if !(e.host == local.host || has_host(s, e.host)) {
        let t = s.push(e);
        assert forall|i: int, j: int|
            0 <= i < t.len() && 0 <= j < t.len() && i != j implies #[trigger] t[i].host
            != #[trigger] t[j].host by {
            if i < s.len() && j < s.len() {
                assert(s[i].host != s[j].host);
            } else if i < s.len() {
                assert(s[i].host != e.host);
            } else {
                assert(s[j].host != e.host);
            }
        }
    }
}

/// The entries left by `without_host` are those of `s` without host `h`,
/// and a valid table stays valid.
pub proof fn lemma_without_host(local: Endpoint, s: Seq<Endpoint>, h: u32)
    ensures
        forall|e: Endpoint| #[trigger]
            without_host(s, h).contains(e) <==> (s.contains(e) && e.host != h),
        table_ok(local, s) ==> table_ok(local, without_host(s, h)),
    decreases s.len(),
{
    if s.len() > 0 {
        let p = s.drop_last();
        let l = s.last();
        lemma_without_host(local, p, h);
        let w = without_host(p, h);
        assert forall|e: Endpoint| #[trigger]
            without_host(s, h).contains(e) <==> (s.contains(e) && e.host != h) by {
            if s.contains(e) && e != l {
                let k = choose|k: int| 0 <= k < s.len() && s[k] == e;
                assert(p[k] == e);
            }
            if p.contains(e) {
                let k = choose|k: int| 0 <= k < p.len() && p[k] == e;
                assert(s[k] == e);
            }
            if l.host != h {
                assert(w.push(l)[w.len() as int] == l);
                if w.push(l).contains(e) && e != l {
                    let k = choose|k: int| 0 <= k < w.len() + 1 && w.push(l)[k] == e;
                    assert(w[k] == e);
                }
                if w.contains(e) {
                    let k = choose|k: int| 0 <= k < w.len() && w[k] == e;
                    assert(w.push(l)[k] == e);
                }
            }
            assert(s[s.len() - 1] == l);
        }
        if table_ok(local, s) {
            assert(table_ok(local, p)) by {
                assert forall|i: int, j: int|
                    0 <= i < p.len() && 0 <= j < p.len() && i != j implies #[trigger] p[i].host
                    != #[trigger] p[j].host by {
                    assert(s[i].host != s[j].host);
                }
                assert forall|i: int| 0 <= i < p.len() implies #[trigger] p[i].host
                    != local.host by {
                    assert(s[i].host != local.host);
                }
            }
            if l.host != h {
                assert(l.host != local.host) by {
                    assert(s[s.len() - 1].host != local.host);
                }
                assert forall|i: int| 0 <= i < w.len() implies #[trigger] w[i].host != l.host by {
                    assert(w.contains(w[i]));
                    let k = choose|k: int| 0 <= k < p.len() && p[k] == w[i];
                    assert(s[k].host != s[s.len() - 1].host);
                }
                lemma_no_host_then_push_ok(local, w, l);
            }
        }
    }
}

proof fn lemma_no_host_then_push_ok(local: Endpoint, s: Seq<Endpoint>, e: Endpoint)
    requires
        table_ok(local, s),
        e.host != local.host,
        forall|i: int| 0 <= i < s.len() ==> #[trigger] s[i].host != e.host,
    ensures
        table_ok(local, s.push(e)),
{
    assert(!has_host(s, e.host));
    lemma_upserted_ok(local, s, e);
}

/// Inserting the local endpoint into a table leaves it as it was.
pub proof fn lemma_upsert_local_is_noop(local: Endpoint, s: Seq<Endpoint>)
    ensures
        upserted(local, s, local) == s,
{
}

/// Inserting the same endpoint twice leaves the table as one insert does,
/// so of the same size.
pub proof fn lemma_upsert_twice(local: Endpoint, s: Seq<Endpoint>, e: Endpoint)
    ensures
        upserted(local, upserted(local, s, e), e) == upserted(local, s, e),
        upserted(local, upserted(local, s, e), e).len() == upserted(local, s, e).len(),
{
    if !(e.host == local.host || has_host(s, e.host)) {
        let t = s.push(e);
        assert(t[s.len() as int].host == e.host);
    }
}

/// After a host is removed, an endpoint with that host, whatever its port,
/// is accepted again and comes last.
pub proof fn lemma_readd_after_remove(local: Endpoint, s: Seq<Endpoint>, e: Endpoint)
    requires
        e.host != local.host,
    ensures
        upserted(local, without_host(s, e.host), e) == without_host(s, e.host).push(e),
        !has_host(without_host(s, e.host), e.host),
{
    lemma_without_host(local, s, e.host);
    let w = without_host(s, e.host);
    if has_host(w, e.host) {
        let i = choose|i: int| 0 <= i < w.len() && #[trigger] w[i].host == e.host;
        assert(w.contains(w[i]));
    }
}

/// The remote endpoints that a node knows of.
pub struct PeerTable {
    local: Endpoint,
    peers: Vec<Endpoint>,
}

impl View for PeerTable {
    type V = Seq<Endpoint>;

    closed spec fn view(&self) -> Seq<Endpoint> {
        self.peers@
    }
}

impl PeerTable {
    /// The endpoint of the node that owns the table.
    pub closed spec fn local_spec(&self) -> Endpoint {
        self.local
    }

    /// No entry has the local host and no two entries share a host.
    pub open spec fn wf(&self) -> bool {
        table_ok(self.local_spec(), self@)
    }

    /// An empty table for the node at `local`.
    pub fn new(local: Endpoint) -> (r: PeerTable)
        ensures
            r.wf(),
            r.local_spec() == local,
            r@ == Seq::<Endpoint>::empty(),
    {
        PeerTable { local, peers: Vec::new() }
    }

    /// The endpoint of the node that owns the table.
    pub fn local(&self) -> (r: Endpoint)
        ensures
            r == self.local_spec(),
    {
        self.local
    }

    /// How many peers are known.
    pub fn len(&self) -> (r: usize)
        ensures
            r == self@.len(),
    {
        self.peers.len()
    }

    /// Whether a peer with host `host` is known.
    pub fn contains_host(&self, host: u32) -> (r: bool)
        ensures
            r == has_host(self@, host),
    {
        let mut i: usize = 0;
        while i < self.peers.len()
            invariant
                i <= self@.len(),
                self@ == self.peers@,
                forall|j: int| 0 <= j < i ==> #[trigger] self@[j].host != host,
            decreases self@.len() - i,
        {
            if self.peers[i].host == host {
                return true;
            }
            i += 1;
        }
        false
    }

    /// Inserts `e` unless it has the local host or its host is known;
    /// returns whether it was inserted.
    pub fn upsert(&mut self, e: Endpoint) -> (r: bool)
        requires
            old(self).wf(),
        ensures
            final(self).wf(),
            final(self).local_spec() == old(self).local_spec(),
            final(self)@ == upserted(old(self).local_spec(), old(self)@, e),
            r == !(e.host == old(self).local_spec().host || has_host(old(self)@, e.host)),
    {
        proof {
            lemma_upserted_ok(self.local, self.peers@, e);
        }
        if e.host == self.local.host || self.contains_host(e.host) {
            false
        } else {
            self.peers.push(e);
            true
        }
    }

    /// Inserts each entry of `list`, in order, as `upsert` does.
    pub fn merge(&mut self, list: &[Endpoint])
        requires
            old(self).wf(),
        ensures
            final(self).wf(),
            final(self).local_spec() == old(self).local_spec(),
            final(self)@ == merged(old(self).local_spec(), old(self)@, list@),
    {
        let mut i: usize = 0;
        while i < list.len()
            invariant
                i <= list@.len(),
                self.wf(),
                self.local_spec() == old(self).local_spec(),
                self@ == merged(old(self).local_spec(), old(self)@, list@.take(i as int)),
            decreases list@.len() - i,
        {
            self.upsert(list[i]);
            assert(list@.take(i + 1).drop_last() =~= list@.take(i as int));
            i += 1;
        }
        assert(list@.take(i as int) =~= list@);
    }

    /// Removes every entry with host `host`.
    pub fn remove(&mut self, host: u32)
        requires
            old(self).wf(),
        ensures
            final(self).wf(),
            final(self).local_spec() == old(self).local_spec(),
            final(self)@ == without_host(old(self)@, host),
    {
        let mut kept: Vec<Endpoint> = Vec::new();
        let mut i: usize = 0;
        while i < self.peers.len()
            invariant
                i <= self@.len(),
                self@ == old(self)@,
                self.local == old(self).local,
                kept@ == without_host(self@.take(i as int), host),
            decreases self@.len() - i,
        {
            let e = self.peers[i];
            assert(self@.take(i + 1).drop_last() =~= self@.take(i as int));
            if e.host != host {
                kept.push(e);
            }
            i += 1;
        }
        assert(self@.take(i as int) =~= self@);
        proof {
            lemma_without_host(self.local, self.peers@, host);
        }
        self.peers = kept;
    }

    /// A copy of the entries, in insertion order.
    pub fn snapshot(&self) -> (r: Vec<Endpoint>)
        ensures
            r@ == self@,
    {
        self.peers.clone()
    }
}

} // verus!
