//! The plain-text peer network: a node broadcasts each line its user types
//! as `"<listening port>:<line>"`, and a node that receives such an
//! announcement learns the sender's ip and listening port.
use vstd::prelude::*;

use crate::decimal::{decimal, format_port, parse_port, spec_parse_u16, lemma_decimal, lemma_parse_decimal, is_digit};
use crate::hosts::{KnownHosts, HostView, host_view, spec_register};
use vstd::string::StringSliceAdditionalSpecFns;
use crate::split::{split_first, free_of, lemma_split_at_first, lemma_no_separator};

verus! {

/// The ASCII code of `':'`, which ends the port in an announcement.
pub open spec fn colon() -> u8 {
    58u8
}

/// Splits `s` at its first `':'` into the text before it and the text after
/// it, as `str::split_once(':')` does; `None` when `s` holds no `':'`.
pub open spec fn split_at_colon(s: Seq<u8>) -> Option<(Seq<u8>, Seq<u8>)> {
    split_first(s, colon())
}

/// What a received announcement says, as the contracts see it.
pub enum AnnouncementView {
    /// The sender listens on `port` and sent `body`.
    Peer { port: u16, body: Seq<u8> },
    /// The text before the first `':'` is no port number.
    BadPort,
    /// The message holds no `':'`.
    Malformed,
}

/// How a received announcement reads: the text before the first `':'` must
/// parse as a port number; what follows the `':'` is the message body.
pub open spec fn spec_announcement(s: Seq<u8>) -> AnnouncementView {
    match split_at_colon(s) {
        None => AnnouncementView::Malformed,
        Some((head, rest)) => match spec_parse_u16(head) {
            Some(port) => AnnouncementView::Peer { port, body: rest },
            None => AnnouncementView::BadPort,
        },
    }
}

/// The announcement a node sends for the line `message`: its listening port
/// in decimal, a `':'`, then the line.
pub open spec fn spec_format_announcement(port: u16, message: Seq<u8>) -> Seq<u8> {
    decimal(port as nat) + seq![colon()] + message
}

/// A received announcement.
#[derive(Debug, PartialEq, Eq)]
pub enum Announcement {
    /// The sender listens on `port` and sent `body`.
    Peer { port: u16, body: Vec<u8> },
    /// The text before the first `':'` is no port number.
    BadPort,
    /// The message holds no `':'`.
    Malformed,
}

impl View for Announcement {
    type V = AnnouncementView;

    open spec fn view(&self) -> AnnouncementView {
        match self {
            Announcement::Peer { port, body } => AnnouncementView::Peer { port: *port, body: body@ },
            Announcement::BadPort => AnnouncementView::BadPort,
            Announcement::Malformed => AnnouncementView::Malformed,
        }
    }
}

/// `s` holds no `':'`.
pub open spec fn colon_free(s: Seq<u8>) -> bool {
    free_of(s, colon())
}

/// Reading back the announcement a node sends gives its listening port and
/// the line it typed, whatever the line holds (a `':'` in it included).
pub proof fn lemma_announcement_round_trip(port: u16, message: Seq<u8>)
    ensures
        spec_announcement(spec_format_announcement(port, message)) == (AnnouncementView::Peer {
            port,
            body: message,
        }),
{
    let d = decimal(port as nat);
    let s = spec_format_announcement(port, message);
    lemma_decimal(port as nat);
    lemma_parse_decimal(port);
    assert(colon_free(s.subrange(0, d.len() as int))) by {
        assert(s.subrange(0, d.len() as int) =~= d);
        assert forall|i: int| 0 <= i < d.len() implies d[i] != colon() by {
            assert(is_digit(d[i]));
        }
    }
    assert(s[d.len() as int] == colon());
    lemma_split_at_first(s, colon(), d.len() as int);
    assert(s.subrange(0, d.len() as int) =~= d);
    assert(s.subrange(d.len() as int + 1, s.len() as int) =~= message);
}

/// Copies `data[from..to]` into a vector of its own.
fn copy_range(data: &[u8], from: usize, to: usize) -> (part: Vec<u8>)
    requires
        from <= to <= data@.len(),
    ensures
        part@ == data@.subrange(from as int, to as int),
{
    let mut part: Vec<u8> = Vec::new();
    let mut i: usize = from;
    while i < to
        invariant
            from <= i <= to,
            to <= data@.len(),
            part@ == data@.subrange(from as int, i as int),
        decreases to - i,
    {
        part.push(data[i]);
        assert(part@ =~= data@.subrange(from as int, i + 1));
        i = i + 1;
    }
    part
}

/// The bytes a node sends to every peer for the line `message`:
/// `"<port>:<message>"`.
pub fn format_announcement(port: u16, message: &str) -> (payload: Vec<u8>)
    ensures
        payload@ == spec_format_announcement(port, message.spec_bytes()),
{
    let mut payload = format_port(port);
    payload.push(58u8);
    let bytes = message.as_bytes();
    let n = bytes.len();
    let ghost start = payload@;
    let mut i: usize = 0;
    while i < n
        invariant
            n == bytes@.len(),
            0 <= i <= n,
            payload@ == start + bytes@.subrange(0, i as int),
        decreases n - i,
    {
        payload.push(bytes[i]);
        assert(payload@ =~= start + bytes@.subrange(0, i + 1));
        i = i + 1;
    }
    assert(bytes@.subrange(0, n as int) =~= bytes@);
    assert(start =~= decimal(port as nat) + seq![colon()]);
    payload
}

/// Reads a received announcement: the text before the first `':'` must be
/// a port number, and the text after it is the body.
pub fn parse_announcement(data: &[u8]) -> (announcement: Announcement)
    ensures
        announcement@ == spec_announcement(data@),
{
    let n = data.len();
    let mut k: usize = 0;
    while k < n
        invariant
            n == data@.len(),
            0 <= k <= n,
            colon_free(data@.subrange(0, k as int)),
        ensures
            0 <= k <= n,
            colon_free(data@.subrange(0, k as int)),
            k < n ==> data@[k as int] == colon(),
        decreases n - k,
    {
        if data[k] == 58u8 {
            break;
        }
        assert(colon_free(data@.subrange(0, k + 1))) by {
            assert forall|i: int| 0 <= i < k + 1 implies #[trigger] data@.subrange(0, k + 1)[i] != colon() by {
                if i < k {
                    assert(data@.subrange(0, k + 1)[i] == data@.subrange(0, k as int)[i]);
                }
            }
        }
        k = k + 1;
    }
    if k == n {
        proof {
            assert(data@.subrange(0, n as int) =~= data@);
            lemma_no_separator(data@, colon());
        }
        return Announcement::Malformed;
    }
    proof {
        lemma_split_at_first(data@, colon(), k as int);
    }
    let head = &data[0..k];
    match parse_port(head) {
        Some(port) => {
            let body = copy_range(data, k + 1, n);
            Announcement::Peer { port, body }
        },
        None => Announcement::BadPort,
    }
}

/// What a node made of the bytes a peer sent it.
#[derive(Debug, PartialEq, Eq)]
pub enum Received {
    /// The peer sent nothing; the node does not answer.
    Nothing,
    /// The peer announced its listening `port`; `new_host` tells whether the
    /// `(ip, port)` pair was unknown before.
    Registered { port: u16, body: Vec<u8>, new_host: bool },
    /// The text before the first `':'` is no port number; nothing is recorded.
    BadPort,
    /// The message holds no `':'`; nothing is recorded.
    Malformed,
}

/// Handles the bytes that a peer at `client_ip` sent: a well-formed
/// announcement registers `(client_ip, port)` among the known hosts. Every
/// outcome but `Nothing` is acknowledged to the peer.
pub fn receive_announcement(hosts: &mut KnownHosts, client_ip: String, data: &[u8]) -> (received:
    Received)
    ensures
        data@.len() == 0 ==> received is Nothing && final(hosts)@ == old(hosts)@,
        data@.len() > 0 ==> match spec_announcement(data@) {
            AnnouncementView::Peer { port, body } => {
                &&& received matches Received::Registered { port: p, body: b, new_host }
                &&& p == port
                &&& b@ == body
                &&& new_host == !old(hosts)@.contains((client_ip@, port))
                &&& final(hosts)@ == spec_register(old(hosts)@, client_ip@, port)
            },
            AnnouncementView::BadPort => received is BadPort && final(hosts)@ == old(hosts)@,
            AnnouncementView::Malformed => received is Malformed && final(hosts)@ == old(hosts)@,
        },
{
    if data.len() == 0 {
        return Received::Nothing;
    }
    match parse_announcement(data) {
        Announcement::Peer { port, body } => {
            let new_host = hosts.register(client_ip, port);
            Received::Registered { port, body, new_host }
        },
        Announcement::BadPort => Received::BadPort,
        Announcement::Malformed => Received::Malformed,
    }
}

/// What a node does with a line its user typed.
#[derive(Debug, PartialEq, Eq)]
pub enum BroadcastPlan {
    /// The line is empty: nothing is sent.
    Skip,
    /// No peer is known yet: nothing is sent.
    NoPeers,
    /// Send `payload` to each of `peers`, in order.
    Send { payload: Vec<u8>, peers: Vec<(String, u16)> },
}

/// Decides what to do with the line `message` that the user of the node
/// listening on `my_port` typed.
pub fn plan_broadcast(hosts: &KnownHosts, my_port: u16, message: &str) -> (plan: BroadcastPlan)
    ensures
        message@.len() == 0 ==> plan is Skip,
        message@.len() > 0 && hosts@.len() == 0 ==> plan is NoPeers,
        message@.len() > 0 && hosts@.len() > 0 ==> match plan {
            BroadcastPlan::Send { payload, peers } => {
                &&& payload@ == spec_format_announcement(my_port, message.spec_bytes())
                &&& peers@.map_values(|h: (String, u16)| host_view(h)) == hosts@
            },
            _ => false,
        },
{
    if message.is_empty() {
        return BroadcastPlan::Skip;
    }
    if hosts.is_empty() {
        return BroadcastPlan::NoPeers;
    }
    let peers = hosts.to_vec();
    let payload = format_announcement(my_port, message);
    BroadcastPlan::Send { payload, peers }
}

/// A plain-text peer: the peers it knows and the port it listens on.
pub struct PeerToPeer {
    pub known_hosts: KnownHosts,
    pub port: u16,
}

impl PeerToPeer {
    /// A peer listening on `port` that knows no other peer yet.
    pub fn new(port: u16) -> (peer: Self)
        ensures
            peer.port == port,
            peer.known_hosts@ == Seq::<HostView>::empty(),
    {
        PeerToPeer { known_hosts: KnownHosts::new(), port }
    }
}

} // verus!
