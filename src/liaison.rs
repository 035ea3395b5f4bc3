//! What a node decides: which datagrams to send at start and on broadcast,
//! how to answer each datagram it receives, and whom to forget when a send
//! fails. The caller owns the socket and performs the sends.
use vstd::prelude::*;

use vstd::slice::slice_subrange;

use crate::clipboard::{appended, Clipboard};
use crate::endpoint::Endpoint;
use crate::error::LiaisonError;
use crate::peers::{
    has_host, lemma_readd_after_remove, lemma_without_host, merged, table_ok, upserted, without_host,
    PeerTable,
};
use crate::wire::{
    data_of, data_payload, decode_data, decode_packet_header, decode_pong, encode_data,
    encode_packet, encode_pong, lemma_data_round_trip, lemma_endpoints_bytes,
    lemma_packet_round_trip, lemma_pong_round_trip, PacketHeader, packet_bytes, packet_header_of, payload_of, pong_of, pong_payload,
    DATA_OVERHEAD, HEADER_LEN, MAX_PAYLOAD, OP_DATA, OP_PING, OP_PONG,
};

verus! {

/// The mask of the network part of a /24 IPv4 address.
pub const NETWORK_MASK: u32 = 0xffff_ff00;

/// The last host number that a sweep of a /24 probes.
pub const LAST_SWEPT: u32 = 254;

/// A datagram and the endpoints to send it to, in order.
#[derive(Debug)]
pub struct Outgoing {
    pub packet: Vec<u8>,
    pub targets: Vec<Endpoint>,
}

/// What the caller does after a datagram was handled.
#[derive(Debug, PartialEq, Eq)]
pub enum Inbound {
    /// Send this datagram back to the source of the one received.
    Reply(Vec<u8>),
    /// The reported endpoints were merged into the table; nothing to send.
    Merged,
    /// Hand these verified bytes to the sink.
    Deliver(Vec<u8>),
}

/// The endpoints that a sweep from `local` probes among host numbers
/// `1..=n` of its /24: every one but its own, on the local port.
pub open spec fn sweep(local: Endpoint, n: nat) -> Seq<Endpoint>
    decreases n,
{
    if n == 0 {
        Seq::empty()
    } else if n == (local.host & 0xff) {
        sweep(local, (n - 1) as nat)
    } else {
        sweep(local, (n - 1) as nat).push(
            Endpoint { host: (local.host & 0xffff_ff00) | (n as u32), port: local.port },
        )
    }
}

/// The PING datagram.
pub open spec fn ping_packet() -> Seq<u8> {
    packet_bytes(OP_PING, Seq::empty())
}

/// The PONG datagram that a node at `local` with peers `s` answers with.
pub open spec fn pong_packet(local: Endpoint, s: Seq<Endpoint>) -> Seq<u8> {
    packet_bytes(OP_PONG, pong_payload(s.push(local)))
}

/// Whether the PONG of a table of `n` peers fits in one datagram.
pub open spec fn pong_fits(n: nat) -> bool {
    8 + 6 * (n + 1) <= MAX_PAYLOAD
}

/// The DATA datagram that carries `d`.
pub open spec fn data_packet(d: Seq<u8>) -> Seq<u8> {
    packet_bytes(OP_DATA, data_payload(d))
}

/// The table after a node at `local` with peers `s` handles `packet` from
/// `src_host`.
pub open spec fn table_after(local: Endpoint, s: Seq<Endpoint>, packet: Seq<u8>, src_host: u32) -> Seq<
    Endpoint,
> {
    match packet_header_of(packet) {
        Err(_) => s,
        Ok(h) => if h.opcode == OP_PING {
            upserted(local, s, Endpoint { host: src_host, port: local.port })
        } else if h.opcode == OP_PONG {
            match pong_of(payload_of(packet)) {
                Ok(list) => merged(local, s, list),
                Err(_) => s,
            }
        } else {
            s
        },
    }
}

/// The data that `packet` delivers, if it is a DATA datagram that passes
/// its checks.
pub open spec fn delivered(packet: Seq<u8>) -> Option<Seq<u8>> {
    match packet_header_of(packet) {
        Ok(h) => if h.opcode == OP_DATA {
            match data_of(payload_of(packet)) {
                Ok(d) => Some(d),
                Err(_) => None,
            }
        } else {
            None
        },
        Err(_) => None,
    }
}

/// Why a node with `n` peers refuses `packet`, if it does.
pub open spec fn refusal(n: nat, packet: Seq<u8>) -> Option<LiaisonError> {
    match packet_header_of(packet) {
        Err(e) => Some(e),
        Ok(h) => if h.opcode == OP_PING {
            if pong_fits(n) {
                None
            } else {
                Some(LiaisonError::PayloadTooLarge)
            }
        } else if h.opcode == OP_PONG {
            match pong_of(payload_of(packet)) {
                Ok(_) => None,
                Err(e) => Some(e),
            }
        } else if h.opcode == OP_DATA {
            match data_of(payload_of(packet)) {
                Ok(_) => None,
                Err(e) => Some(e),
            }
        } else {
            Some(LiaisonError::UnknownOpcode(h.opcode))
        },
    }
}

/// Whether `packet` is a PING.
pub open spec fn is_ping(packet: Seq<u8>) -> bool {
    packet_header_of(packet) matches Ok(h) && h.opcode == OP_PING
}

/// The state of one node: its own endpoint and its peer table.
pub struct Liaison {
    table: PeerTable,
}

impl View for Liaison {
    type V = Seq<Endpoint>;

    closed spec fn view(&self) -> Seq<Endpoint> {
        self.table@
    }
}

impl Liaison {
    /// The node's own endpoint.
    pub closed spec fn local_spec(&self) -> Endpoint {
        self.table.local_spec()
    }

    /// The peer table is valid for the node's own endpoint.
    pub closed spec fn wf(&self) -> bool {
        self.table.wf()
    }

    /// A node at `ip`:`port` that knows no peer yet.
    pub fn new(ip: u32, port: u16) -> (r: Liaison)
        ensures
            r.wf(),
            r.local_spec() == (Endpoint { host: ip, port }),
            r@ == Seq::<Endpoint>::empty(),
    {
        Liaison { table: PeerTable::new(Endpoint { host: ip, port }) }
    }

    /// The node's IPv4 address.
    pub fn ip(&self) -> (r: u32)
        ensures
            r == self.local_spec().host,
    {
        self.table.local().host
    }

    /// The port that every node of the group listens on.
    pub fn port(&self) -> (r: u16)
        ensures
            r == self.local_spec().port,
    {
        self.table.local().port
    }

    /// The known peers, in insertion order.
    pub fn peers(&self) -> (r: Vec<Endpoint>)
        ensures
            r@ == self@,
    {
        self.table.snapshot()
    }

    /// Whether a peer with host `host` is known.
    pub fn knows(&self, host: u32) -> (r: bool)
        ensures
            r == has_host(self@, host),
    {
        self.table.contains_host(host)
    }

    /// The discovery sweep made at start: a PING to every other host number
    /// from 1 to 254 of the node's /24, on the node's port.
    pub fn start(&self) -> (r: Outgoing)
        ensures
            r.packet@ == ping_packet(),
            r.targets@ == sweep(self.local_spec(), LAST_SWEPT as nat),
    {
        let local = self.table.local();
        let network = local.host & NETWORK_MASK;
        let own = local.host & 0xff;
        let mut targets: Vec<Endpoint> = Vec::new();
        let mut i: u32 = 1;
        while i <= LAST_SWEPT
            invariant
                1 <= i <= LAST_SWEPT + 1,
                local == self.local_spec(),
                network == local.host & 0xffff_ff00,
                own == local.host & 0xff,
                targets@ == sweep(local, (i - 1) as nat),
            decreases LAST_SWEPT + 1 - i,
        {
            if i != own {
                targets.push(Endpoint { host: network | i, port: local.port });
            }
            i += 1;
        }
        let empty: Vec<u8> = Vec::new();
        Outgoing { packet: encode_packet(OP_PING, empty.as_slice()), targets }
    }

    /// The DATA datagram that carries `data` and the peers to send it to:
    /// a copy of the table taken now. Fails when the payload would not fit
    /// the header's length field.
    pub fn broadcast(&self, data: &[u8]) -> (r: Result<Outgoing, LiaisonError>)
        ensures
            data@.len() + DATA_OVERHEAD > MAX_PAYLOAD ==> r == Err::<Outgoing, LiaisonError>(
                LiaisonError::PayloadTooLarge,
            ),
            data@.len() + DATA_OVERHEAD <= MAX_PAYLOAD ==> (r matches Ok(out) && out.packet@
                == data_packet(data@) && out.targets@ == self@),
    {
        if data.len() > MAX_PAYLOAD - DATA_OVERHEAD {
            return Err(LiaisonError::PayloadTooLarge);
        }
        let payload = encode_data(data);
        let packet = encode_packet(OP_DATA, payload.as_slice());
        Ok(Outgoing { packet, targets: self.table.snapshot() })
    }

    /// Forgets the peer at `host` after a send to it failed, so that later
    /// broadcasts skip it until it announces itself again.
    pub fn evict(&mut self, host: u32)
        requires
            old(self).wf(),
        ensures
            final(self).wf(),
            final(self).local_spec() == old(self).local_spec(),
            final(self)@ == without_host(old(self)@, host),
            !has_host(final(self)@, host),
    {
        self.table.remove(host);
        proof {
            lemma_without_host(self.local_spec(), old(self)@, host);
            if has_host(self@, host) {
                let i = choose|i: int| 0 <= i < self@.len() && #[trigger] self@[i].host == host;
                assert(self@.contains(self@[i]));
            }
        }
    }

    /// Applies the outcome of a send of a broadcast to `peer`: a success
    /// changes nothing, a failure evicts the peer's host.
    pub fn on_send_result(&mut self, peer: Endpoint, sent: bool)
        requires
            old(self).wf(),
        ensures
            final(self).wf(),
            final(self).local_spec() == old(self).local_spec(),
            sent ==> final(self)@ == old(self)@,
            !sent ==> final(self)@ == without_host(old(self)@, peer.host),
            !sent ==> !has_host(final(self)@, peer.host),
    {
        if !sent {
            self.evict(peer.host);
        }
    }

    /// A valid node's table holds neither its own host nor any host twice.
    pub proof fn lemma_wf_table_ok(&self)
        requires
            self.wf(),
        ensures
            table_ok(self.local_spec(), self@),
    {
    }

    /// One step of the receive loop: handles `packet` from `src_host`,
    /// appends the data of a DATA datagram that passes its checks to
    /// `history`, once, and returns the reply to send back, if any. A refused
    /// datagram leaves the history as it was and the node ready for the next.
    pub fn receive(&mut self, history: &mut Clipboard, packet: &[u8], src_host: u32) -> (r: Result<
        Option<Vec<u8>>,
        LiaisonError,
    >)
        requires
            old(self).wf(),
            old(history).wf(),
        ensures
            final(self).wf(),
            final(self).local_spec() == old(self).local_spec(),
            final(self)@ == table_after(old(self).local_spec(), old(self)@, packet@, src_host),
            final(history).wf(),
            final(history).capacity == old(history).capacity,
            match delivered(packet@) {
                Some(d) => exists|v: Vec<u8>|
                    v@ == d && final(history).content@ == #[trigger] appended(
                        old(history).content@,
                        v,
                        old(history).capacity as nat,
                    ),
                None => *final(history) == *old(history),
            },
            match refusal(old(self)@.len(), packet@) {
                Some(e) => r == Err::<Option<Vec<u8>>, LiaisonError>(e),
                None => r is Ok,
            },
            is_ping(packet@) && pong_fits(old(self)@.len()) ==> (r matches Ok(Some(p)) && p@
                == pong_packet(old(self).local_spec(), old(self)@)),
            !is_ping(packet@) ==> !(r matches Ok(Some(_))),
    {
        match self.handle(packet, src_host) {
            Ok(Inbound::Reply(p)) => Ok(Some(p)),
            Ok(Inbound::Merged) => Ok(None),
            Ok(Inbound::Deliver(d)) => {
                history.append(d);
                Ok(None)
            },
            Err(e) => Err(e),
        }
    }

    /// The PONG datagram listing the known peers and then this node.
    pub fn pong(&self) -> (r: Result<Vec<u8>, LiaisonError>)
        ensures
            pong_fits(self@.len()) ==> (r matches Ok(p) && p@ == pong_packet(
                self.local_spec(),
                self@,
            )),
            !pong_fits(self@.len()) ==> r == Err::<Vec<u8>, LiaisonError>(
                LiaisonError::PayloadTooLarge,
            ),
    {
        let n = self.table.len();
        if n > (MAX_PAYLOAD - 14) / 6 {
            return Err(LiaisonError::PayloadTooLarge);
        }
        let mut list = self.table.snapshot();
        list.push(self.table.local());
        let payload = encode_pong(list.as_slice());
        proof {
            lemma_endpoints_bytes(list@);
        }
        Ok(encode_packet(OP_PONG, payload.as_slice()))
    }

    /// Handles one received datagram from host `src_host`.
    ///
    /// A PING is answered with a PONG, and its sender, on this node's port,
    /// is then inserted in the table; it is inserted too when the table is
    /// too large for its PONG to fit in a datagram, and only the reply fails. The endpoints of a PONG are merged
    /// into the table. The data of a DATA datagram is handed out once its
    /// checksum is checked; the table stays as it is. A datagram that is
    /// malformed, fails its checksum or has an unknown opcode is refused
    /// and changes nothing.
    pub fn handle(&mut self, packet: &[u8], src_host: u32) -> (r: Result<Inbound, LiaisonError>)
        requires
            old(self).wf(),
        ensures
            final(self).wf(),
            final(self).local_spec() == old(self).local_spec(),
            match packet_header_of(packet@) {
                Err(e) => r == Err::<Inbound, LiaisonError>(e) && final(self)@ == old(self)@,
                Ok(h) => if h.opcode == OP_PING {
                    &&& final(self)@ == upserted(
                        old(self).local_spec(),
                        old(self)@,
                        Endpoint { host: src_host, port: old(self).local_spec().port },
                    )
                    &&& if pong_fits(old(self)@.len()) {
                        r matches Ok(Inbound::Reply(p)) && p@ == pong_packet(
                            old(self).local_spec(),
                            old(self)@,
                        )
                    } else {
                        r == Err::<Inbound, LiaisonError>(LiaisonError::PayloadTooLarge)
                    }
                } else if h.opcode == OP_PONG {
                    match pong_of(payload_of(packet@)) {
                        Ok(list) => r == Ok::<Inbound, LiaisonError>(Inbound::Merged)
                            && final(self)@ == merged(old(self).local_spec(), old(self)@, list),
                        Err(e) => r == Err::<Inbound, LiaisonError>(e) && final(self)@ == old(
                            self,
                        )@,
                    }
                } else if h.opcode == OP_DATA {
                    &&& final(self)@ == old(self)@
                    &&& match data_of(payload_of(packet@)) {
                        Ok(d) => r matches Ok(Inbound::Deliver(v)) && v@ == d,
                        Err(e) => r == Err::<Inbound, LiaisonError>(e),
                    }
                } else {
                    r == Err::<Inbound, LiaisonError>(LiaisonError::UnknownOpcode(h.opcode))
                        && final(self)@ == old(self)@
                },
            },
    {
        let h = match decode_packet_header(packet) {
            Ok(h) => h,
            Err(e) => return Err(e),
        };
        let payload = slice_subrange(packet, HEADER_LEN, packet.len());
        if h.opcode == OP_PING {
            let reply = self.pong();
            let sender = Endpoint { host: src_host, port: self.table.local().port };
            self.table.upsert(sender);
            match reply {
                Ok(p) => Ok(Inbound::Reply(p)),
                Err(e) => Err(e),
            }
        } else if h.opcode == OP_PONG {
            match decode_pong(payload) {
                Ok(list) => {
                    self.table.merge(list.as_slice());
                    Ok(Inbound::Merged)
                },
                Err(e) => Err(e),
            }
        } else if h.opcode == OP_DATA {
            match decode_data(payload) {
                Ok(d) => Ok(Inbound::Deliver(d)),
                Err(e) => Err(e),
            }
        } else {
            Err(LiaisonError::UnknownOpcode(h.opcode))
        }
    }
}

/// Host number `k` of the /24 of `local`, other than its own, is among the
/// first `n` that a sweep probes.
proof fn lemma_sweep_contains(local: Endpoint, n: nat, k: nat)
    requires
        1 <= k <= n,
        k != (local.host & 0xff),
        n <= LAST_SWEPT,
    ensures
        sweep(local, n).contains(
            Endpoint { host: (local.host & 0xffff_ff00) | (k as u32), port: local.port },
        ),
    decreases n,
{
    let e = Endpoint { host: (local.host & 0xffff_ff00) | (k as u32), port: local.port };
    if k == n {
        let s = sweep(local, n);
        assert(s[s.len() - 1] == e);
    } else {
        lemma_sweep_contains(local, (n - 1) as nat, k);
        let p = sweep(local, (n - 1) as nat);
        let i = choose|i: int| 0 <= i < p.len() && p[i] == e;
        if n != (local.host & 0xff) {
            assert(p.push(
                Endpoint { host: (local.host & 0xffff_ff00) | (n as u32), port: local.port },
            )[i] == e);
        }
    }
}

/// After a merge, every reported endpoint that is not the local one has
/// its host in the table, as has every host that was there before.
proof fn lemma_merged_has_hosts(local: Endpoint, s: Seq<Endpoint>, list: Seq<Endpoint>)
    ensures
        forall|i: int|
            0 <= i < list.len() && list[i].host != local.host ==> has_host(
                merged(local, s, list),
                #[trigger] list[i].host,
            ),
        forall|h: u32| has_host(s, h) ==> #[trigger] has_host(merged(local, s, list), h),
    decreases list.len(),
{
    if list.len() > 0 {
        let p = list.drop_last();
        lemma_merged_has_hosts(local, s, p);
        let m = merged(local, s, p);
        let e = list.last();
        assert forall|h: u32| has_host(m, h) implies #[trigger] has_host(upserted(local, m, e), h) by {
            let j = choose|j: int| 0 <= j < m.len() && #[trigger] m[j].host == h;
            if !(e.host == local.host || has_host(m, e.host)) {
                assert(m.push(e)[j].host == h);
            }
        }
        assert forall|i: int| 0 <= i < list.len() && list[i].host != local.host implies has_host(
            merged(local, s, list),
            #[trigger] list[i].host,
        ) by {
            if i < p.len() {
                assert(p[i] == list[i]);
                assert(has_host(m, p[i].host));
            } else if !has_host(m, e.host) {
                assert(m.push(e)[m.len() as int].host == e.host);
            }
        }
    }
}

/// Discovery is symmetric: take nodes `a` and `b` on one /24 and one port,
/// with tables `sa` and `sb`. `a`'s sweep pings `b`; once `b` has handled
/// that PING, `b` knows `a`; the PONG that `b` answers with lists `b`, and
/// once `a` has merged it, `a` knows `b`.
pub proof fn lemma_discovery_is_symmetric(
    a: Endpoint,
    b: Endpoint,
    sa: Seq<Endpoint>,
    sb: Seq<Endpoint>,
)
    requires
        a.port == b.port,
        a.host & 0xffff_ff00 == b.host & 0xffff_ff00,
        a.host != b.host,
        1 <= (b.host & 0xff) <= LAST_SWEPT,
        pong_fits(sb.len()),
    ensures
        sweep(a, LAST_SWEPT as nat).contains(b),
        packet_header_of(ping_packet()) == Ok::<PacketHeader, LiaisonError>(
            PacketHeader { opcode: OP_PING, length: 0 },
        ),
        has_host(upserted(b, sb, Endpoint { host: a.host, port: b.port }), a.host),
        packet_header_of(pong_packet(b, sb)) matches Ok(h) && h.opcode == OP_PONG,
        pong_of(payload_of(pong_packet(b, sb))) == Ok::<Seq<Endpoint>, LiaisonError>(sb.push(b)),
        has_host(merged(a, sa, sb.push(b)), b.host),
{
    let (ah, bh) = (a.host, b.host);
    assert((ah & 0xffff_ff00) | (bh & 0xff) == bh && (ah & 0xff) != (bh & 0xff)) by (bit_vector)
        requires
            ah & 0xffff_ff00 == bh & 0xffff_ff00,
            ah != bh,
    ;
    lemma_sweep_contains(a, LAST_SWEPT as nat, (b.host & 0xff) as nat);
    lemma_packet_round_trip(OP_PING, Seq::empty());
    let e = Endpoint { host: a.host, port: b.port };
    if !has_host(sb, a.host) {
        assert(sb.push(e)[sb.len() as int].host == a.host);
    }
    let list = sb.push(b);
    lemma_endpoints_bytes(list);
    lemma_pong_round_trip(list);
    lemma_packet_round_trip(OP_PONG, pong_payload(list));
    lemma_merged_has_hosts(a, sa, list);
    assert(list[sb.len() as int].host == b.host);
}

/// A peer that was evicted is no target of any later broadcast: no entry
/// of the table is left with its host.
pub proof fn lemma_evicted_not_targeted(local: Endpoint, s: Seq<Endpoint>, host: u32)
    ensures
        forall|i: int|
            0 <= i < without_host(s, host).len() ==> #[trigger] without_host(s, host)[i].host
                != host,
{
    lemma_without_host(local, s, host);
    assert forall|i: int| 0 <= i < without_host(s, host).len() implies #[trigger] without_host(
        s,
        host,
    )[i].host != host by {
        assert(without_host(s, host).contains(without_host(s, host)[i]));
    }
}

/// The datagram that a broadcast of `d` sends is read by its receiver as a
/// DATA datagram whose checked data is `d`.
pub proof fn lemma_broadcast_delivers(d: Seq<u8>)
    requires
        d.len() + DATA_OVERHEAD <= MAX_PAYLOAD,
    ensures
        packet_header_of(data_packet(d)) matches Ok(h) && h.opcode == OP_DATA,
        data_of(payload_of(data_packet(d))) == Ok::<Seq<u8>, LiaisonError>(d),
{
    lemma_packet_round_trip(OP_DATA, data_payload(d));
    lemma_data_round_trip(d);
}

/// Re-addition after eviction: once the host of a peer has been evicted,
/// a PING from that host inserts it again, last, on the local port.
pub proof fn lemma_ping_readds_evicted(local: Endpoint, s: Seq<Endpoint>, host: u32)
    requires
        host != local.host,
    ensures
        upserted(local, without_host(s, host), Endpoint { host, port: local.port })
            == without_host(s, host).push(Endpoint { host, port: local.port }),
{
    lemma_readd_after_remove(local, s, Endpoint { host, port: local.port });
}

} // verus!
