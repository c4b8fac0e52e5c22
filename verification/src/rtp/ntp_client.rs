//! The SNTP exchange of the RTP timing client: the request it sends and the
//! clock offset it reads from the answer.
use vstd::prelude::*;
use super::timing::NtpTimestamp;
use crate::ntp::client::{half_toward_zero, offset_and_rtt};

verus! {

/// Size of an NTP packet.
pub const SNTP_PACKET_SIZE: usize = 48;

/// The request: the first byte 0x1B (LI 0, version 3, client mode), the
/// transmit timestamp `t1` in bytes 40..48, zeros elsewhere.
pub open spec fn sntp_request_bytes(t1: NtpTimestamp) -> Seq<u8> {
    seq![0x1Bu8] + Seq::new(39, |i: int| 0u8) + t1.spec_encode()
}

/// Build the SNTP request sent at `t1`.
pub fn sntp_request(t1: NtpTimestamp) -> (r: Vec<u8>)
    ensures
        r@ == sntp_request_bytes(t1),
        r@.len() == SNTP_PACKET_SIZE,
{
    let mut req: Vec<u8> = Vec::new();
    req.push(0x1B);
    let mut i: usize = 1;
    while i < 40
        invariant
            1 <= i <= 40,
            req@ == seq![0x1Bu8] + Seq::new((i - 1) as nat, |k: int| 0u8),
        decreases 40 - i,
    {
        let ghost before = req@;
        req.push(0);
        assert(req@ =~= seq![0x1Bu8] + Seq::new(i as nat, |k: int| 0u8)) by {
            assert(before =~= seq![0x1Bu8] + Seq::new((i - 1) as nat, |k: int| 0u8));
        }
        i = i + 1;
    }
    let ts = t1.encode();
    let ghost before = req@;
    req.extend_from_slice(ts.as_slice());
    assert(req@ =~= sntp_request_bytes(t1));
    req
}

/// The clock offset (server minus local, in microseconds) from the answer
/// to a request sent at `t1` and received at `t4`: the answer's receive
/// timestamp `t2` is in bytes 32..40 and its transmit timestamp `t3` in
/// bytes 40..48; the offset is `((t2 - t1) + (t3 - t4)) / 2`. An answer
/// shorter than 48 bytes is refused with its length.
pub fn sntp_offset(response: &[u8], t1: NtpTimestamp, t4: NtpTimestamp) -> (r: Result<i64, usize>)
    ensures
        match r {
            Err(n) => response@.len() < SNTP_PACKET_SIZE && n == response@.len(),
            Ok(offset) => response@.len() >= SNTP_PACKET_SIZE && {
                let t2 = NtpTimestamp::spec_decode(response@.subrange(32, 40));
                let t3 = NtpTimestamp::spec_decode(response@.subrange(40, 48));
                offset == half_toward_zero(
                    (t2.spec_micros() - t1.spec_micros()) + (t3.spec_micros() - t4.spec_micros()),
                )
            },
        },
{
    if response.len() < SNTP_PACKET_SIZE {
        return Err(response.len());
    }
    let t2 = NtpTimestamp::decode(&response[32..40]);
    let t3 = NtpTimestamp::decode(&response[40..48]);
    let (offset, _rtt) = offset_and_rtt(t1, t2, t3, t4);
    Ok(offset)
}

} // verus!
