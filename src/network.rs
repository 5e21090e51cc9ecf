//! The decision parts of the network layer: the node's id, recognising an
//! acknowledgement, and the retry policy of a reliable send to one peer.
use vstd::prelude::*;
use vstd::string::StringExecFns;

verus! {

/// The id a node takes when it cannot learn its own address.
pub const OFFLINE_ID: &'static str = "Offline Elevator";

/// The character of the decimal digit `d`.
pub open spec fn digit_char(d: nat) -> char {
    seq!['0', '1', '2', '3', '4', '5', '6', '7', '8', '9'][d as int]
}

/// The decimal digits of `n`, without leading zeros.
pub open spec fn decimal(n: nat) -> Seq<char>
    decreases n,
{
    if n < 10 {
        seq![digit_char(n)]
    } else {
        decimal(n / 10).push(digit_char(n % 10))
    }
}

/// Relies on `ToString` for `u16` (its `Display`): the decimal digits of
/// the number, with no sign and no padding.
#[verifier::external_body]
fn decimal_text(n: u16) -> (r: String)
    ensures
        r@ == decimal(n as nat),
{
    n.to_string()
}

/// The id of a node: `<local-ip>:<msg-port>`, or the offline id when the
/// local address is unknown.
pub open spec fn node_id(local_ip: Option<Seq<char>>, msg_port: u16) -> Seq<char> {
    match local_ip {
        Some(ip) => ip + seq![':'] + decimal(msg_port as nat),
        None => OFFLINE_ID@,
    }
}

/// The node's identity on the network.
#[derive(Clone, Debug, PartialEq)]
pub struct Network {
    pub id: String,
}

impl Network {
    /// The network identity of a node whose local address was found to be
    /// `local_ip` (if it was) and that receives snapshots on `msg_port`.
    pub fn new(local_ip: Option<&str>, msg_port: u16) -> (r: Network)
        ensures
            r.id@ == node_id(
                match local_ip {
                    Some(ip) => Some(ip@),
                    None => None,
                },
                msg_port,
            ),
    {
        match local_ip {
            Some(ip) => {
                let mut id = String::from_str(ip);
                id.append(":");
                let port = decimal_text(msg_port);
                id.append(port.as_str());
                proof {
                    reveal_strlit(":");
                }
                assert(id@ =~= ip@ + seq![':'] + decimal(msg_port as nat));
                Network { id }
            },
            None => Network { id: String::from_str(OFFLINE_ID) },
        }
    }

    /// Whether this node runs alone, without a network address.
    pub fn is_offline(&self) -> (r: bool)
        ensures
            r == (self.id@ == OFFLINE_ID@),
    {
        let offline = String::from_str(OFFLINE_ID);
        self.id == offline
    }
}

/// An ASCII space, tab, line feed, vertical tab, form feed or carriage return.
pub open spec fn is_space(b: u8) -> bool {
    b == 32 || (9 <= b && b <= 13)
}

/// The datagram is `ACK`, possibly surrounded by whitespace.
pub open spec fn is_ack_datagram(s: Seq<u8>) -> bool {
    exists|i: int, j: int|
        0 <= i <= j <= s.len() && (forall|k: int| 0 <= k < i ==> is_space(#[trigger] s[k])) && (forall|k: int|
            j <= k < s.len() ==> is_space(#[trigger] s[k])) && #[trigger] s.subrange(i, j) == seq![65u8, 67u8, 75u8]
}

/// Whether a datagram acknowledges a snapshot.
pub fn is_ack(datagram: &[u8]) -> (r: bool)
    ensures
        r == is_ack_datagram(datagram@),
{
    let s = datagram;
    let n = s.len();
    let mut lo: usize = 0;
    while lo < n && (s[lo] == 32 || (9 <= s[lo] && s[lo] <= 13))
        invariant
            n == s@.len(),
            lo <= n,
            forall|k: int| 0 <= k < lo ==> is_space(#[trigger] s@[k]),
        decreases n - lo,
    {
        lo += 1;
    }
    let mut hi: usize = n;
    while hi > lo && (s[hi - 1] == 32 || (9 <= s[hi - 1] && s[hi - 1] <= 13))
        invariant
            n == s@.len(),
            lo <= hi <= n,
            forall|k: int| hi <= k < n ==> is_space(#[trigger] s@[k]),
        decreases hi,
    {
        hi -= 1;
    }
    let r = hi - lo == 3 && s[lo] == 65 && s[lo + 1] == 67 && s[lo + 2] == 75;
    proof {
        if r {
            assert(s@.subrange(lo as int, hi as int) =~= seq![65u8, 67u8, 75u8]);
        }
        if is_ack_datagram(s@) {
            let (i, j) = choose|i: int, j: int|
                0 <= i <= j <= s@.len() && (forall|k: int| 0 <= k < i ==> is_space(#[trigger] s@[k])) && (forall|k: int|
                    j <= k < s@.len() ==> is_space(#[trigger] s@[k])) && #[trigger] s@.subrange(i, j) == seq![65u8, 67u8, 75u8];
            let w = s@.subrange(i, j);
            assert(w.len() == 3);
            assert(j == i + 3);
            assert(w[0] == s@[i] && w[1] == s@[i + 1] && w[2] == s@[i + 2]);
            assert(s@[i] == 65u8);
            assert(s@[j - 1] == 75u8);
            assert(lo >= i) by {
                if lo < i {
                    assert(is_space(s@[lo as int]));
                }
            }
            assert(lo <= i) by {
                if lo > i {
                    assert(is_space(s@[i]));
                }
            }
            assert(hi >= j) by {
                if hi < j {
                    assert(is_space(s@[j - 1]));
                }
            }
            assert(hi <= j) by {
                if hi > j {
                    assert(is_space(s@[hi - 1]));
                }
            }
            assert(s@.subrange(i, j)[1] == 67u8);
        }
    }
    r
}

/// How one attempt to send a snapshot to a peer ended.
#[derive(Clone, Copy, Debug, PartialEq, Eq, Structural)]
pub enum SendOutcome {
    /// The peer acknowledged it.
    Acked,
    /// No acknowledgement came within the timeout.
    NoAck,
    /// The datagram could not be sent.
    SendFailed,
}

/// The retry policy of a reliable send to one peer: send until the peer
/// acknowledges or `max_retries` attempts have failed.
#[derive(Clone, Copy, Debug, PartialEq, Eq, Structural)]
pub struct AckRetry {
    pub retries: u32,
    pub max_retries: u32,
    pub acked: bool,
}

impl AckRetry {
    /// The policy before the first attempt.
    pub fn new(max_retries: u32) -> (r: AckRetry)
        ensures
            r == (AckRetry { retries: 0, max_retries, acked: false }),
    {
        AckRetry { retries: 0, max_retries, acked: false }
    }

    /// Whether another attempt is to be made.
    pub fn should_send(&self) -> (r: bool)
        ensures
            r == (!self.acked && self.retries < self.max_retries),
    {
        !self.acked && self.retries < self.max_retries
    }

    /// Records how an attempt ended: an acknowledgement ends the send, any
    /// other outcome counts as a failed attempt.
    pub fn record(&mut self, outcome: SendOutcome)
        requires
            old(self).retries < old(self).max_retries,
        ensures
            final(self).max_retries == old(self).max_retries,
            outcome == SendOutcome::Acked ==> final(self).acked && final(self).retries == old(self).retries,
            outcome != SendOutcome::Acked ==> final(self).acked == old(self).acked && final(self).retries
                == old(self).retries + 1,
    {
        match outcome {
            SendOutcome::Acked => {
                self.acked = true;
            },
            _ => {
                self.retries = self.retries + 1;
            },
        }
    }

    /// Whether the send was given up: every attempt failed.
    pub fn gave_up(&self) -> (r: bool)
        ensures
            r == (!self.acked && self.retries >= self.max_retries),
    {
        !self.acked && self.retries >= self.max_retries
    }
}

} // verus!
