//! UDP endpoint addresses as plain values, and the actions that the PTP
//! state machines hand to the code that owns the sockets.
use vstd::prelude::*;
use super::timestamp::PtpTimestamp;

verus! {

/// An IP address.
#[derive(Debug, Clone, Copy, PartialEq, Eq, Structural)]
pub enum IpAddress {
    /// IPv4, the four octets as a big-endian number.
    V4(u32),
    /// IPv6, the sixteen octets as a big-endian number.
    V6(u128),
}

/// A UDP socket address: IP, port, and for IPv6 the flow info and scope ID
/// (zero for IPv4).
#[derive(Debug, Clone, Copy, PartialEq, Eq, Structural)]
pub struct PeerAddr {
    /// IP address.
    pub ip: IpAddress,
    /// Port.
    pub port: u16,
    /// IPv6 flow info.
    pub flowinfo: u32,
    /// IPv6 scope ID.
    pub scope_id: u32,
}

impl PeerAddr {
    /// The address with the given IP and port (no flow info or scope ID).
    pub open spec fn spec_new(ip: IpAddress, port: u16) -> PeerAddr {
        PeerAddr { ip, port, flowinfo: 0, scope_id: 0 }
    }

    /// The address with the given IP and port (no flow info or scope ID).
    pub fn new(ip: IpAddress, port: u16) -> (r: PeerAddr)
        ensures
            r == PeerAddr::spec_new(ip, port),
    {
        PeerAddr { ip, port, flowinfo: 0, scope_id: 0 }
    }
}

/// The socket an action goes out on.
#[derive(Debug, Clone, Copy, PartialEq, Eq, Structural)]
pub enum PtpSocket {
    /// The event socket (port 319 or the AirPlay timing port).
    Event,
    /// The general socket (port 320).
    General,
}

/// What a PTP state machine asks its owner to do.
#[derive(Debug)]
pub enum PtpAction {
    /// Send `data` on `socket` to `dest`.
    Send {
        /// Socket to send on.
        socket: PtpSocket,
        /// Destination.
        dest: PeerAddr,
        /// Packet bytes.
        data: Vec<u8>,
    },
    /// Feed a complete measurement (T1..T4) to the clock.
    ProcessTiming {
        /// Master send time.
        t1: PtpTimestamp,
        /// Slave receive time.
        t2: PtpTimestamp,
        /// Slave send time.
        t3: PtpTimestamp,
        /// Master receive time.
        t4: PtpTimestamp,
    },
}

/// An action as the contracts see it.
pub enum ActionModel {
    /// Send bytes on a socket to an address.
    Send(PtpSocket, PeerAddr, Seq<u8>),
    /// Feed a measurement to the clock.
    ProcessTiming(PtpTimestamp, PtpTimestamp, PtpTimestamp, PtpTimestamp),
}

/// The model of an action.
pub open spec fn action_model(a: PtpAction) -> ActionModel {
    match a {
        PtpAction::Send { socket, dest, data } => ActionModel::Send(socket, dest, data@),
        PtpAction::ProcessTiming { t1, t2, t3, t4 } => ActionModel::ProcessTiming(t1, t2, t3, t4),
    }
}

/// The models of a list of actions.
pub open spec fn actions_model(v: Seq<PtpAction>) -> Seq<ActionModel> {
    v.map_values(|a: PtpAction| action_model(a))
}

/// The list with `a` appended unless it is already there.
pub open spec fn add_unique(s: Seq<PeerAddr>, a: PeerAddr) -> Seq<PeerAddr> {
    if s.contains(a) {
        s
    } else {
        s.push(a)
    }
}

/// Appending an address unless it is there keeps a list free of
/// repeats.
pub proof fn lemma_add_unique_distinct(s: Seq<PeerAddr>, a: PeerAddr)
    requires
        s.no_duplicates(),
    ensures
        add_unique(s, a).no_duplicates(),
        add_unique(s, a).contains(a),
{
    if !s.contains(a) {
        let t = s.push(a);
        assert(t[s.len() as int] == a);
        assert forall|i: int, j: int| 0 <= i < t.len() && 0 <= j < t.len() && i != j implies t[i]
            != t[j] by {
            if i < s.len() && j < s.len() {
                assert(t[i] == s[i] && t[j] == s[j]);
            } else if i < s.len() {
                assert(t[i] == s[i]);
                if s[i] == a {
                    assert(s.contains(a));
                }
            } else if j < s.len() {
                assert(t[j] == s[j]);
                if s[j] == a {
                    assert(s.contains(a));
                }
            }
        }
    }
}

/// Appends `addr` to `list` unless it is already there.
pub fn push_unique(list: &mut Vec<PeerAddr>, addr: PeerAddr)
    ensures
        final(list)@ == add_unique(old(list)@, addr),
{
    let mut i: usize = 0;
    while i < list.len()
        invariant
            i <= list@.len(),
            forall|j: int| 0 <= j < i ==> list@[j] != addr,
        decreases list@.len() - i,
    {
        if list[i] == addr {
            proof {
                assert(list@.contains(addr));
            }
            return;
        }
        i = i + 1;
    }
    proof {
        assert(!list@.contains(addr)) by {
            if list@.contains(addr) {
                let k = choose|k: int| 0 <= k < list@.len() && list@[k] == addr;
                assert(list@[k] != addr);
            }
        }
    }
    list.push(addr);
}

} // verus!
