//! The local estimate of a remote PTP clock: each Sync/Delay_Req exchange
//! gives four timestamps, from which a measurement of the offset and the
//! round-trip time is made; measurements with too long a round trip are
//! dropped, the latest ones are kept, and their median is the offset used
//! to convert between the local and the remote timeline.
use vstd::prelude::*;
use core::time::Duration;
use std::time::Instant;
use super::timestamp::{PtpTimestamp, NANOS_PER_SEC};
use crate::text::{decimal, decimal_string, hex_digits, hex_string};
use crate::time::duration_nanos;

verus! {

/// The role of a PTP endpoint.
#[derive(Debug, Clone, Copy, PartialEq, Eq, Structural)]
pub enum PtpRole {
    /// Sends Sync and answers Delay_Req.
    Master,
    /// Follows a master.
    Slave,
}

/// How many measurements a clock keeps unless told otherwise.
pub const DEFAULT_MAX_MEASUREMENTS: usize = 8;

/// The longest round trip a clock accepts unless told otherwise, in
/// milliseconds.
pub const DEFAULT_MAX_RTT_MILLIS: u64 = 100;

/// How far apart in local time the oldest and the newest measurement must
/// be before a drift is estimated from them, in nanoseconds.
pub const DRIFT_MIN_ELAPSED_NANOS: u128 = 100_000_000;

/// 2^96: a bound on every offset and round trip a clock holds.
pub open spec fn bound96() -> int {
    0x1_0000_0000_0000_0000_0000_0000
}

/// Whether a value lies strictly within `(-2^96, 2^96)`.
pub open spec fn bounded(x: int) -> bool {
    -bound96() < x < bound96()
}

/// Half of `x`, rounded toward zero (as integer division does).
pub open spec fn trunc_half(x: int) -> int {
    if x >= 0 {
        x / 2
    } else {
        -((-x) / 2)
    }
}

/// The offset of the local clock from the remote one that four timestamps
/// give: the remote clock sends at `t1` and receives at `t4`, the local
/// clock receives at `t2` and sends at `t3`; the offset is
/// `((t2 - t1) + (t3 - t4)) / 2`.
pub open spec fn spec_offset(
    t1: PtpTimestamp,
    t2: PtpTimestamp,
    t3: PtpTimestamp,
    t4: PtpTimestamp,
) -> int {
    trunc_half((t2.spec_nanos() - t1.spec_nanos()) + (t3.spec_nanos() - t4.spec_nanos()))
}

/// The round trip that four timestamps give: `(t4 - t1) - (t3 - t2)`, at
/// least zero and at most `u64::MAX` nanoseconds.
pub open spec fn spec_rtt(t1: PtpTimestamp, t2: PtpTimestamp, t3: PtpTimestamp, t4: PtpTimestamp) -> nat {
    let d = (t4.spec_nanos() - t1.spec_nanos()) - (t3.spec_nanos() - t2.spec_nanos());
    if d <= 0 {
        0
    } else if d > u64::MAX {
        u64::MAX as nat
    } else {
        d as nat
    }
}

/// `t` with `x` inserted before the first element greater than `x`.
pub open spec fn insert_sorted(t: Seq<int>, x: int) -> Seq<int>
    decreases t.len(),
{
    if t.len() == 0 {
        seq![x]
    } else if x < t[0] {
        seq![x] + t
    } else {
        seq![t[0]] + insert_sorted(t.drop_first(), x)
    }
}

/// The values of `s` in ascending order (insertion sort).
pub open spec fn sorted_values(s: Seq<int>) -> Seq<int>
    decreases s.len(),
{
    if s.len() == 0 {
        Seq::empty()
    } else {
        insert_sorted(sorted_values(s.drop_last()), s.last())
    }
}

/// The median of non-empty values: the middle one in ascending order, or
/// for an even count half the sum of the two middle ones (rounded toward
/// zero).
pub open spec fn median(s: Seq<int>) -> int {
    let t = sorted_values(s);
    let n = t.len();
    if n % 2 == 1 {
        t[(n / 2) as int]
    } else {
        trunc_half(t[n / 2 - 1] + t[(n / 2) as int])
    }
}

/// The latest `max` elements of `s` (all of them when there are fewer).
pub open spec fn keep_last<T>(s: Seq<T>, max: nat) -> Seq<T> {
    if s.len() > max {
        s.subrange(s.len() - max, s.len() as int)
    } else {
        s
    }
}

/// The drift, in parts per million, of an offset that went from `first`
/// to `last` over `elapsed` nanoseconds (rounded toward zero).
pub open spec fn drift_of(first: int, last: int, elapsed: nat) -> int {
    let d = last - first;
    if d >= 0 {
        (d * 1_000_000) / (elapsed as int)
    } else {
        -(((-d) * 1_000_000) / (elapsed as int))
    }
}

/// Whether `d` is the drift of the offsets `o` from the first to the last
/// over some time longer than the minimum (the time is a reading of the
/// local clock, of which nothing more is known).
pub open spec fn drift_estimate(o: Seq<int>, d: int) -> bool {
    exists|e: nat| e > DRIFT_MIN_ELAPSED_NANOS && d == #[trigger] drift_of(o[0], o.last(), e)
}

proof fn lemma_insert_sorted_len(t: Seq<int>, x: int)
    ensures
        insert_sorted(t, x).len() == t.len() + 1,
        forall|k: int|
            0 <= k < insert_sorted(t, x).len() ==> #[trigger] insert_sorted(t, x)[k] == x
                || t.contains(insert_sorted(t, x)[k]),
    decreases t.len(),
{
    if t.len() > 0 && !(x < t[0]) {
        lemma_insert_sorted_len(t.drop_first(), x);
        let r = insert_sorted(t, x);
        assert forall|k: int| 0 <= k < r.len() implies #[trigger] r[k] == x || t.contains(
            r[k],
        ) by {
            if k == 0 {
                assert(t.contains(t[0]));
            } else {
                let r2 = insert_sorted(t.drop_first(), x);
                assert(r[k] == r2[k - 1]);
                if r2[k - 1] != x {
                    let j = choose|j: int| 0 <= j < t.drop_first().len() && t.drop_first()[j]
                        == r2[k - 1];
                    assert(t[j + 1] == r[k]);
                }
            }
        }
    } else if t.len() > 0 {
        let r = insert_sorted(t, x);
        assert forall|k: int| 0 <= k < r.len() implies #[trigger] r[k] == x || t.contains(
            r[k],
        ) by {
            if k > 0 {
                assert(r[k] == t[k - 1]);
            }
        }
    }
}

/// Sorting keeps the number of values and takes every value from `s`.
pub proof fn lemma_sorted_values(s: Seq<int>)
    ensures
        sorted_values(s).len() == s.len(),
        forall|k: int| 0 <= k < s.len() ==> s.contains(#[trigger] sorted_values(s)[k]),
    decreases s.len(),
{
    if s.len() > 0 {
        lemma_sorted_values(s.drop_last());
        let t = sorted_values(s.drop_last());
        lemma_insert_sorted_len(t, s.last());
        assert forall|k: int| 0 <= k < s.len() implies s.contains(#[trigger] sorted_values(s)[k]) by {
            let v = sorted_values(s)[k];
            if v == s.last() {
                assert(s[s.len() - 1] == v);
            } else {
                assert(t.contains(v));
                let j = choose|j: int| 0 <= j < t.len() && t[j] == v;
                assert(s.drop_last().contains(t[j]));
                let i = choose|i: int| 0 <= i < s.drop_last().len() && s.drop_last()[i] == v;
                assert(s[i] == v);
            }
        }
    }
}

/// The median of bounded values is bounded.
pub proof fn lemma_median_bounded(s: Seq<int>)
    requires
        s.len() > 0,
        forall|k: int| 0 <= k < s.len() ==> bounded(#[trigger] s[k]),
    ensures
        bounded(median(s)),
{
    lemma_sorted_values(s);
    let t = sorted_values(s);
    let n = t.len();
    let a = t[(n / 2) as int];
    assert(s.contains(a));
    if n % 2 == 0 {
        let b = t[n / 2 - 1];
        assert(s.contains(b));
    }
}

/// The median of values that are all the same is that value.
pub proof fn lemma_median_constant(s: Seq<int>, v: int)
    requires
        s.len() > 0,
        forall|k: int| 0 <= k < s.len() ==> #[trigger] s[k] == v,
    ensures
        median(s) == v,
{
    lemma_sorted_values(s);
    let t = sorted_values(s);
    let n = t.len();
    let a = t[(n / 2) as int];
    assert(s.contains(a));
    if n % 2 == 0 {
        let b = t[n / 2 - 1];
        assert(s.contains(b));
    }
}

/// The median lies between the smallest and the largest value.
pub proof fn lemma_median_within(s: Seq<int>)
    requires
        s.len() > 0,
    ensures
        exists|i: int| 0 <= i < s.len() && #[trigger] s[i] <= median(s),
        exists|j: int| 0 <= j < s.len() && median(s) <= #[trigger] s[j],
{
    lemma_sorted_values(s);
    let t = sorted_values(s);
    let n = t.len();
    let a = t[(n / 2) as int];
    assert(s.contains(a));
    let ia = choose|i: int| 0 <= i < s.len() && s[i] == a;
    if n % 2 == 1 {
        assert(s[ia] <= median(s));
        assert(median(s) <= s[ia]);
    } else {
        let b = t[n / 2 - 1];
        assert(s.contains(b));
        let ib = choose|i: int| 0 <= i < s.len() && s[i] == b;
        if a <= b {
            assert(s[ia] <= median(s));
            assert(median(s) <= s[ib]);
        } else {
            assert(s[ib] <= median(s));
            assert(median(s) <= s[ia]);
        }
    }
}

proof fn lemma_insert_at(t: Seq<int>, x: int, i: int)
    requires
        0 <= i <= t.len(),
        forall|j: int| 0 <= j < i ==> !(x < #[trigger] t[j]),
        i == t.len() || x < t[i],
    ensures
        insert_sorted(t, x) == t.insert(i, x),
    decreases t.len(),
{
    if i == 0 {
        assert(insert_sorted(t, x) =~= t.insert(0, x));
    } else {
        let u = t.drop_first();
        assert forall|j: int| 0 <= j < i - 1 implies !(x < #[trigger] u[j]) by {
            assert(u[j] == t[j + 1]);
        }
        lemma_insert_at(u, x, i - 1);
        assert(seq![t[0]] + u.insert(i - 1, x) =~= t.insert(i, x));
    }
}

/// The values of `v` in ascending order.
fn sorted_copy(v: &Vec<i128>) -> (r: Vec<i128>)
    ensures
        r@.map_values(|x: i128| x as int) == sorted_values(v@.map_values(|x: i128| x as int)),
{
    let ghost s = v@.map_values(|x: i128| x as int);
    let mut out: Vec<i128> = Vec::new();
    let mut k: usize = 0;
    assert(s.subrange(0, 0) =~= Seq::<int>::empty());
    assert(out@.map_values(|x: i128| x as int) =~= Seq::<int>::empty());
    while k < v.len()
        invariant
            k <= v@.len(),
            s == v@.map_values(|x: i128| x as int),
            out@.map_values(|x: i128| x as int) == sorted_values(s.subrange(0, k as int)),
        decreases v@.len() - k,
    {
        let x = v[k];
        let ghost o = out@.map_values(|y: i128| y as int);
        let mut i: usize = 0;
        while i < out.len() && !(x < out[i])
            invariant
                i <= out@.len(),
                o == out@.map_values(|y: i128| y as int),
                forall|j: int| 0 <= j < i ==> !(x < #[trigger] o[j]),
            decreases out@.len() - i,
        {
            i = i + 1;
        }
        proof {
            lemma_insert_at(o, x as int, i as int);
            let p = s.subrange(0, k + 1);
            assert(p.drop_last() =~= s.subrange(0, k as int));
            assert(p.last() == x as int);
        }
        out.insert(i, x);
        proof {
            assert(out@.map_values(|y: i128| y as int) =~= o.insert(i as int, x as int));
        }
        k = k + 1;
    }
    assert(s.subrange(0, v@.len() as int) =~= s);
    out
}

/// Half of `x`, rounded toward zero.
fn half(x: i128) -> (r: i128)
    requires
        -0x1_0000_0000_0000_0000_0000_0000_0000 < x < 0x1_0000_0000_0000_0000_0000_0000_0000,
    ensures
        r == trunc_half(x as int),
{
    if x >= 0 {
        ((x as u128) / 2) as i128
    } else {
        -((((-x) as u128) / 2) as i128)
    }
}

/// The median of non-empty bounded values.
fn median_of(v: &Vec<i128>) -> (r: i128)
    requires
        v@.len() > 0,
        forall|k: int| 0 <= k < v@.len() ==> bounded(#[trigger] v@[k] as int),
    ensures
        r == median(v@.map_values(|x: i128| x as int)),
        bounded(r as int),
{
    let ghost s = v@.map_values(|x: i128| x as int);
    proof {
        assert forall|k: int| 0 <= k < s.len() implies bounded(#[trigger] s[k]) by {
            assert(s[k] == v@[k] as int);
        }
        lemma_sorted_values(s);
        lemma_median_bounded(s);
    }
    let t = sorted_copy(v);
    let ghost tv = t@.map_values(|x: i128| x as int);
    let n = t.len();
    proof {
        assert(tv.len() == n);
    }
    if n % 2 == 1 {
        assert(tv[(n / 2) as int] == t@[(n / 2) as int] as int);
        t[n / 2]
    } else {
        let a = t[n / 2 - 1];
        let b = t[n / 2];
        proof {
            assert(tv[n / 2 - 1] == a as int);
            assert(tv[(n / 2) as int] == b as int);
            assert(s.contains(a as int));
            assert(s.contains(b as int));
            let ia = choose|i: int| 0 <= i < s.len() && s[i] == a as int;
            let ib = choose|i: int| 0 <= i < s.len() && s[i] == b as int;
            assert(bounded(s[ia]));
            assert(bounded(s[ib]));
        }
        half(a + b)
    }
}

/// One timing measurement from a Sync/Delay_Req exchange.
#[derive(Debug, Clone, Copy)]
pub struct TimingMeasurement {
    /// Offset of the local clock from the remote one, in nanoseconds.
    pub offset_ns: i128,
    /// Round-trip time of the exchange.
    pub rtt: Duration,
    /// When the measurement was made, on the local monotonic clock.
    pub local_time: Instant,
}

impl TimingMeasurement {
    /// The measurement that four timestamps give (see `spec_offset` and
    /// `spec_rtt`), made at `local_time`.
    pub fn calculate(
        t1: PtpTimestamp,
        t2: PtpTimestamp,
        t3: PtpTimestamp,
        t4: PtpTimestamp,
        local_time: Instant,
    ) -> (r: Self)
        ensures
            r.offset_ns == spec_offset(t1, t2, t3, t4),
            duration_nanos(r.rtt) == spec_rtt(t1, t2, t3, t4),
            bounded(r.offset_ns as int),
            r.local_time == local_time,
    {
        let n1 = t1.to_nanos();
        let n2 = t2.to_nanos();
        let n3 = t3.to_nanos();
        let n4 = t4.to_nanos();
        proof {
            assert(t1.spec_nanos() < 0x8000_0000_0000_0000_0000_0000int) by (nonlinear_arith)
                requires
                    t1.spec_nanos() == t1.seconds * 1_000_000_000 + t1.nanoseconds,
                    t1.seconds <= u64::MAX,
                    t1.nanoseconds <= u32::MAX,
            ;
            assert(t2.spec_nanos() < 0x8000_0000_0000_0000_0000_0000int) by (nonlinear_arith)
                requires
                    t2.spec_nanos() == t2.seconds * 1_000_000_000 + t2.nanoseconds,
                    t2.seconds <= u64::MAX,
                    t2.nanoseconds <= u32::MAX,
            ;
            assert(t3.spec_nanos() < 0x8000_0000_0000_0000_0000_0000int) by (nonlinear_arith)
                requires
                    t3.spec_nanos() == t3.seconds * 1_000_000_000 + t3.nanoseconds,
                    t3.seconds <= u64::MAX,
                    t3.nanoseconds <= u32::MAX,
            ;
            assert(t4.spec_nanos() < 0x8000_0000_0000_0000_0000_0000int) by (nonlinear_arith)
                requires
                    t4.spec_nanos() == t4.seconds * 1_000_000_000 + t4.nanoseconds,
                    t4.seconds <= u64::MAX,
                    t4.nanoseconds <= u32::MAX,
            ;
        }
        let offset = half((n2 - n1) + (n3 - n4));
        let d = (n4 - n1) - (n3 - n2);
        let rtt_ns: u64 = if d <= 0 {
            0
        } else if d > u64::MAX as i128 {
            u64::MAX
        } else {
            d as u64
        };
        TimingMeasurement { offset_ns: offset, rtt: Duration::from_nanos(rtt_ns), local_time }
    }
}

/// The local estimate of a remote PTP clock.
#[derive(Debug)]
pub struct PtpClock {
    clock_id: u64,
    role: PtpRole,
    measurements: Vec<TimingMeasurement>,
    max_measurements: usize,
    max_rtt: Duration,
    min_sync_measurements: usize,
    offset_ns: i128,
    drift_ppm: i128,
}

/// The offsets of measurements, in order.
pub open spec fn offsets_of(ms: Seq<TimingMeasurement>) -> Seq<int> {
    ms.map_values(|m: TimingMeasurement| m.offset_ns as int)
}

/// The round trips of measurements in nanoseconds, in order.
pub open spec fn rtts_of(ms: Seq<TimingMeasurement>) -> Seq<int> {
    ms.map_values(|m: TimingMeasurement| duration_nanos(m.rtt) as int)
}

impl PtpClock {
    #[verifier::type_invariant]
    spec fn well_formed(self) -> bool {
        &&& self.max_measurements >= 1
        &&& self.min_sync_measurements >= 1
        &&& bounded(self.offset_ns as int)
        &&& forall|k: int|
            0 <= k < self.measurements@.len() ==> bounded(
                #[trigger] self.measurements@[k].offset_ns as int,
            )
        &&& forall|k: int|
            0 <= k < self.measurements@.len() ==> duration_nanos(#[trigger] self.measurements@[k].rtt)
                <= u64::MAX
    }

    /// This clock's identity.
    pub closed spec fn spec_clock_id(&self) -> u64 {
        self.clock_id
    }

    /// This clock's role.
    pub closed spec fn spec_role(&self) -> PtpRole {
        self.role
    }

    /// The measurements kept, oldest first.
    pub closed spec fn spec_measurements(&self) -> Seq<TimingMeasurement> {
        self.measurements@
    }

    /// How many measurements are kept at most.
    pub closed spec fn spec_max_measurements(&self) -> nat {
        self.max_measurements as nat
    }

    /// The longest round trip accepted, in nanoseconds.
    pub closed spec fn spec_max_rtt(&self) -> nat {
        duration_nanos(self.max_rtt)
    }

    /// How many measurements make the clock synchronized.
    pub closed spec fn spec_min_sync(&self) -> nat {
        self.min_sync_measurements as nat
    }

    /// The current offset estimate in nanoseconds.
    pub closed spec fn spec_offset_ns(&self) -> int {
        self.offset_ns as int
    }

    /// The current drift estimate in parts per million.
    pub closed spec fn spec_drift(&self) -> int {
        self.drift_ppm as int
    }

    /// A clock with no measurements, an offset and a drift of zero, and the
    /// default limits.
    pub fn new(clock_id: u64, role: PtpRole) -> (r: Self)
        ensures
            r.spec_clock_id() == clock_id,
            r.spec_role() == role,
            r.spec_measurements().len() == 0,
            r.spec_max_measurements() == DEFAULT_MAX_MEASUREMENTS,
            r.spec_max_rtt() == DEFAULT_MAX_RTT_MILLIS * 1_000_000,
            r.spec_min_sync() == 1,
            r.spec_offset_ns() == 0,
            r.spec_drift() == 0,
    {
        PtpClock {
            clock_id,
            role,
            measurements: Vec::new(),
            max_measurements: DEFAULT_MAX_MEASUREMENTS,
            max_rtt: Duration::from_millis(DEFAULT_MAX_RTT_MILLIS),
            min_sync_measurements: 1,
            offset_ns: 0,
            drift_ppm: 0,
        }
    }

    /// This clock's identity.
    pub fn clock_id(&self) -> (r: u64)
        ensures
            r == self.spec_clock_id(),
    {
        self.clock_id
    }

    /// This clock's role.
    pub fn role(&self) -> (r: PtpRole)
        ensures
            r == self.spec_role(),
    {
        self.role
    }

    /// Whether enough measurements have been made.
    pub fn is_synchronized(&self) -> (r: bool)
        ensures
            r == (self.spec_measurements().len() >= self.spec_min_sync()),
    {
        self.measurements.len() >= self.min_sync_measurements
    }

    /// The offset estimate in nanoseconds.
    pub fn offset_nanos(&self) -> (r: i128)
        ensures
            r == self.spec_offset_ns(),
    {
        self.offset_ns
    }

    /// The offset estimate in microseconds (rounded toward zero).
    pub fn offset_micros(&self) -> (r: i128)
        ensures
            r == (if self.spec_offset_ns() >= 0 {
                self.spec_offset_ns() / 1000
            } else {
                -((-self.spec_offset_ns()) / 1000)
            }),
    {
        proof {
            use_type_invariant(self);
        }
        if self.offset_ns >= 0 {
            ((self.offset_ns as u128) / 1000) as i128
        } else {
            -((((-self.offset_ns) as u128) / 1000) as i128)
        }
    }

    /// The drift estimate in parts per million.
    pub fn drift_ppm(&self) -> (r: i128)
        ensures
            r == self.spec_drift(),
    {
        self.drift_ppm
    }

    /// How many measurements are kept.
    pub fn measurement_count(&self) -> (r: usize)
        ensures
            r == self.spec_measurements().len(),
    {
        self.measurements.len()
    }

    /// The measurements kept, oldest first.
    pub fn measurements(&self) -> (r: &[TimingMeasurement])
        ensures
            r@ == self.spec_measurements(),
    {
        self.measurements.as_slice()
    }

    /// Keep at most `n` measurements (at least one); the limit applies
    /// from the next measurement on.
    pub fn set_max_measurements(&mut self, n: usize)
        ensures
            final(self).spec_max_measurements() == (if n == 0 {
                1
            } else {
                n as nat
            }),
            final(self).spec_measurements() == old(self).spec_measurements(),
            final(self).spec_max_rtt() == old(self).spec_max_rtt(),
            final(self).spec_min_sync() == old(self).spec_min_sync(),
            final(self).spec_offset_ns() == old(self).spec_offset_ns(),
            final(self).spec_drift() == old(self).spec_drift(),
            final(self).spec_clock_id() == old(self).spec_clock_id(),
            final(self).spec_role() == old(self).spec_role(),
    {
        proof {
            use_type_invariant(&*self);
        }
        self.max_measurements = if n == 0 {
            1
        } else {
            n
        };
    }

    /// Accept only measurements whose round trip is at most `max`.
    pub fn set_max_rtt(&mut self, max: Duration)
        ensures
            final(self).spec_max_rtt() == duration_nanos(max),
            final(self).spec_measurements() == old(self).spec_measurements(),
            final(self).spec_max_measurements() == old(self).spec_max_measurements(),
            final(self).spec_min_sync() == old(self).spec_min_sync(),
            final(self).spec_offset_ns() == old(self).spec_offset_ns(),
            final(self).spec_drift() == old(self).spec_drift(),
            final(self).spec_clock_id() == old(self).spec_clock_id(),
            final(self).spec_role() == old(self).spec_role(),
    {
        proof {
            use_type_invariant(&*self);
        }
        self.max_rtt = max;
    }

    /// Count the clock as synchronized from `n` measurements on (at least
    /// one).
    pub fn set_min_sync_measurements(&mut self, n: usize)
        ensures
            final(self).spec_min_sync() == (if n == 0 {
                1
            } else {
                n as nat
            }),
            final(self).spec_measurements() == old(self).spec_measurements(),
            final(self).spec_max_measurements() == old(self).spec_max_measurements(),
            final(self).spec_max_rtt() == old(self).spec_max_rtt(),
            final(self).spec_offset_ns() == old(self).spec_offset_ns(),
            final(self).spec_drift() == old(self).spec_drift(),
            final(self).spec_clock_id() == old(self).spec_clock_id(),
            final(self).spec_role() == old(self).spec_role(),
    {
        proof {
            use_type_invariant(&*self);
        }
        self.min_sync_measurements = if n == 0 {
            1
        } else {
            n
        };
    }

    /// Process the timestamps of one exchange. A measurement whose round
    /// trip exceeds the limit is rejected and changes nothing. Otherwise it
    /// is appended, only the latest `max_measurements` are kept, the offset
    /// becomes the median of their offsets, and once the oldest and the
    /// newest kept are more than 100 ms apart the drift is re-estimated
    /// from their offsets.
    pub fn process_timing(
        &mut self,
        t1: PtpTimestamp,
        t2: PtpTimestamp,
        t3: PtpTimestamp,
        t4: PtpTimestamp,
    ) -> (accepted: bool)
        ensures
            accepted == (spec_rtt(t1, t2, t3, t4) <= old(self).spec_max_rtt()),
            final(self).spec_max_measurements() == old(self).spec_max_measurements(),
            final(self).spec_max_rtt() == old(self).spec_max_rtt(),
            final(self).spec_min_sync() == old(self).spec_min_sync(),
            final(self).spec_clock_id() == old(self).spec_clock_id(),
            final(self).spec_role() == old(self).spec_role(),
            !accepted ==> final(self).spec_measurements() == old(self).spec_measurements()
                && final(self).spec_offset_ns() == old(self).spec_offset_ns()
                && final(self).spec_drift() == old(self).spec_drift(),
            accepted ==> offsets_of(final(self).spec_measurements()) == keep_last(
                offsets_of(old(self).spec_measurements()).push(spec_offset(t1, t2, t3, t4)),
                old(self).spec_max_measurements(),
            ),
            accepted ==> rtts_of(final(self).spec_measurements()) == keep_last(
                rtts_of(old(self).spec_measurements()).push(spec_rtt(t1, t2, t3, t4) as int),
                old(self).spec_max_measurements(),
            ),
            accepted ==> final(self).spec_offset_ns() == median(
                offsets_of(final(self).spec_measurements()),
            ),
            accepted ==> 1 <= final(self).spec_measurements().len()
                <= final(self).spec_max_measurements(),
            accepted ==> (final(self).spec_drift() == old(self).spec_drift() || drift_estimate(
                offsets_of(final(self).spec_measurements()),
                final(self).spec_drift(),
            )),
    {
        proof {
            use_type_invariant(&*self);
        }
        let m = TimingMeasurement::calculate(t1, t2, t3, t4, Instant::now());
        let rtt_ns = m.rtt.as_nanos();
        let max_ns = self.max_rtt.as_nanos();
        if rtt_ns > max_ns {
            return false;
        }
        let mut ms: Vec<TimingMeasurement> = Vec::new();
        std::mem::swap(&mut ms, &mut self.measurements);
        let ghost old_ms = ms@;
        ms.push(m);
        let ghost pushed = ms@;
        proof {
            assert(offsets_of(pushed) =~= offsets_of(old_ms).push(m.offset_ns as int));
            assert(rtts_of(pushed) =~= rtts_of(old_ms).push(duration_nanos(m.rtt) as int));
        }
        let max = self.max_measurements;
        while ms.len() > max
            invariant
                max >= 1,
                ms@.len() >= 1,
                pushed.len() >= ms@.len(),
                ms@ == pushed.subrange(pushed.len() - ms@.len(), pushed.len() as int),
                ms@.len() >= max || ms@.len() == pushed.len(),
            decreases ms@.len(),
        {
            ms.remove(0);
            proof {
                assert(ms@ =~= pushed.subrange(pushed.len() - ms@.len(), pushed.len() as int));
            }
        }
        proof {
            let kept = ms@;
            assert(kept == keep_last(pushed, max as nat));
            assert(offsets_of(kept) =~= keep_last(offsets_of(pushed), max as nat));
            assert(rtts_of(kept) =~= keep_last(rtts_of(pushed), max as nat));
            assert forall|k: int| 0 <= k < kept.len() implies bounded(
                #[trigger] kept[k].offset_ns as int,
            ) by {
                let j = pushed.len() - kept.len() + k;
                assert(kept[k] == pushed[j]);
                if j < old_ms.len() {
                    assert(pushed[j] == old_ms[j]);
                }
            }
            assert forall|k: int| 0 <= k < kept.len() implies duration_nanos(
                #[trigger] kept[k].rtt,
            ) <= u64::MAX by {
                let j = pushed.len() - kept.len() + k;
                assert(kept[k] == pushed[j]);
                if j < old_ms.len() {
                    assert(pushed[j] == old_ms[j]);
                }
            }
        }
        self.measurements = ms;
        let mut offsets: Vec<i128> = Vec::new();
        let mut k: usize = 0;
        while k < self.measurements.len()
            invariant
                k <= self.measurements@.len(),
                offsets@.map_values(|x: i128| x as int) == offsets_of(
                    self.measurements@.subrange(0, k as int),
                ),
                forall|j: int| 0 <= j < offsets@.len() ==> bounded(#[trigger] offsets@[j] as int),
                forall|j: int|
                    0 <= j < self.measurements@.len() ==> bounded(
                        #[trigger] self.measurements@[j].offset_ns as int,
                    ),
                offsets@.len() == k,
            decreases self.measurements@.len() - k,
        {
            let o = self.measurements[k].offset_ns;
            let ghost prev = offsets@;
            offsets.push(o);
            proof {
                assert(offsets@.map_values(|x: i128| x as int) =~= prev.map_values(
                    |x: i128| x as int,
                ).push(o as int));
                assert(self.measurements@.subrange(0, k + 1) =~= self.measurements@.subrange(
                    0,
                    k as int,
                ).push(self.measurements@[k as int]));
                assert(offsets@.map_values(|x: i128| x as int) =~= offsets_of(
                    self.measurements@.subrange(0, k + 1),
                ));
            }
            k = k + 1;
        }
        proof {
            assert(self.measurements@.subrange(0, k as int) =~= self.measurements@);
        }
        self.offset_ns = median_of(&offsets);
        let n = self.measurements.len();
        if n >= 2 {
            let first = self.measurements[0].offset_ns;
            let last = self.measurements[n - 1].offset_ns;
            let elapsed = self.measurements[n - 1].local_time.duration_since(
                self.measurements[0].local_time,
            ).as_nanos();
            if elapsed > DRIFT_MIN_ELAPSED_NANOS {
                let d = last - first;
                let e: u128 = elapsed;
                let drift: i128 = if d >= 0 {
                    assert((d as u128) * 1_000_000 < 0x1_0000_0000_0000_0000_0000_0000_0000_0000)
                        by (nonlinear_arith)
                        requires
                            0 <= d < 0x2_0000_0000_0000_0000_0000_0000,
                    ;
                    (((d as u128) * 1_000_000) / e) as i128
                } else {
                    assert(((-d) as u128) * 1_000_000
                        < 0x1_0000_0000_0000_0000_0000_0000_0000_0000) by (nonlinear_arith)
                        requires
                            0 < -d < 0x2_0000_0000_0000_0000_0000_0000,
                    ;
                    -(((((-d) as u128) * 1_000_000) / e) as i128)
                };
                proof {
                    assert(first as int == offsets_of(self.measurements@)[0]);
                    assert(last as int == offsets_of(self.measurements@).last());
                    assert(drift as int == drift_of(first as int, last as int, e as nat));
                }
                self.drift_ppm = drift;
                assert(self.drift_ppm as int == drift_of(
                    offsets_of(self.measurements@)[0],
                    offsets_of(self.measurements@).last(),
                    e as nat,
                ));
                assert(e as nat > DRIFT_MIN_ELAPSED_NANOS);
                assert(drift_estimate(offsets_of(self.measurements@), self.drift_ppm as int));
            }
        }
        true
    }

    /// Moving a timestamp to the remote timeline and back gives it again,
    /// as long as the remote time is after the epoch and fits.
    pub proof fn lemma_local_remote_roundtrip(&self, t: PtpTimestamp)
        requires
            t.nanoseconds < NANOS_PER_SEC,
            t.spec_nanos() + self.spec_offset_ns() > 0,
            (t.spec_nanos() + self.spec_offset_ns()) / 1_000_000_000 <= u64::MAX,
        ensures
            PtpTimestamp::spec_from_nanos(
                PtpTimestamp::spec_from_nanos(t.spec_nanos() + self.spec_offset_ns()).spec_nanos()
                    - self.spec_offset_ns(),
            ) == t,
    {
        let n = t.spec_nanos() + self.spec_offset_ns();
        let r = PtpTimestamp::spec_from_nanos(n);
        assert(r.spec_nanos() == n) by (nonlinear_arith)
            requires
                n > 0,
                r.seconds == n / 1_000_000_000,
                r.nanoseconds == n % 1_000_000_000,
                r.spec_nanos() == r.seconds * 1_000_000_000 + r.nanoseconds,
        ;
        super::timestamp::lemma_nanos_roundtrip(t);
    }

    /// Forget all measurements; the offset and the drift return to zero.
    pub fn reset(&mut self)
        ensures
            final(self).spec_measurements().len() == 0,
            final(self).spec_offset_ns() == 0,
            final(self).spec_drift() == 0,
            final(self).spec_max_measurements() == old(self).spec_max_measurements(),
            final(self).spec_max_rtt() == old(self).spec_max_rtt(),
            final(self).spec_min_sync() == old(self).spec_min_sync(),
            final(self).spec_clock_id() == old(self).spec_clock_id(),
            final(self).spec_role() == old(self).spec_role(),
    {
        proof {
            use_type_invariant(&*self);
        }
        self.measurements = Vec::new();
        self.offset_ns = 0;
        self.drift_ppm = 0;
    }

    /// The round trip of the newest measurement.
    pub fn last_rtt(&self) -> (r: Option<Duration>)
        ensures
            self.spec_measurements().len() == 0 ==> r is None,
            self.spec_measurements().len() > 0 ==> r == Some(
                self.spec_measurements().last().rtt,
            ),
    {
        let n = self.measurements.len();
        if n == 0 {
            None
        } else {
            Some(self.measurements[n - 1].rtt)
        }
    }

    /// The median round trip of the measurements kept.
    pub fn median_rtt(&self) -> (r: Option<Duration>)
        ensures
            self.spec_measurements().len() == 0 ==> r is None,
            self.spec_measurements().len() > 0 ==> (r matches Some(d) && duration_nanos(d)
                == median(rtts_of(self.spec_measurements()))),
    {
        proof {
            use_type_invariant(self);
        }
        let n = self.measurements.len();
        if n == 0 {
            return None;
        }
        let mut rtts: Vec<i128> = Vec::new();
        let mut k: usize = 0;
        while k < n
            invariant
                n == self.measurements@.len(),
                k <= n,
                rtts@.map_values(|x: i128| x as int) == rtts_of(
                    self.measurements@.subrange(0, k as int),
                ),
                forall|j: int|
                    0 <= j < rtts@.len() ==> 0 <= #[trigger] rtts@[j] <= u64::MAX,
                forall|j: int|
                    0 <= j < n ==> duration_nanos(#[trigger] self.measurements@[j].rtt)
                        <= u64::MAX,
                rtts@.len() == k,
            decreases n - k,
        {
            let ns = self.measurements[k].rtt.as_nanos();
            let ghost prev = rtts@;
            rtts.push(ns as i128);
            proof {
                assert(rtts@.map_values(|x: i128| x as int) =~= prev.map_values(
                    |x: i128| x as int,
                ).push(ns as int));
                assert(self.measurements@.subrange(0, k + 1) =~= self.measurements@.subrange(
                    0,
                    k as int,
                ).push(self.measurements@[k as int]));
                assert(rtts@.map_values(|x: i128| x as int) =~= rtts_of(
                    self.measurements@.subrange(0, k + 1),
                ));
            }
            k = k + 1;
        }
        proof {
            assert(self.measurements@.subrange(0, n as int) =~= self.measurements@);
            assert forall|j: int| 0 <= j < rtts@.len() implies bounded(#[trigger] rtts@[j] as int) by {
            }
        }
        let m = median_of(&rtts);
        proof {
            let s = rtts@.map_values(|x: i128| x as int);
            lemma_sorted_values(s);
            let t = sorted_values(s);
            let len = t.len();
            assert(s.contains(t[(len / 2) as int]));
            if len % 2 == 0 {
                assert(s.contains(t[len / 2 - 1]));
            }
            assert(forall|j: int| 0 <= j < s.len() ==> 0 <= #[trigger] s[j] <= u64::MAX);
            assert(0 <= m <= u64::MAX);
        }
        Some(Duration::from_nanos(m as u64))
    }

    /// A remote timestamp on the local timeline: `remote - offset`.
    pub fn remote_to_local(&self, remote: PtpTimestamp) -> (r: PtpTimestamp)
        ensures
            r == PtpTimestamp::spec_from_nanos(remote.spec_nanos() - self.spec_offset_ns()),
    {
        proof {
            use_type_invariant(self);
            assert(remote.spec_nanos() < bound96()) by (nonlinear_arith)
                requires
                    remote.spec_nanos() == remote.seconds * 1_000_000_000 + remote.nanoseconds,
                    remote.seconds <= u64::MAX,
                    remote.nanoseconds <= u32::MAX,
            ;
        }
        PtpTimestamp::from_nanos(remote.to_nanos() - self.offset_ns)
    }

    /// A local timestamp on the remote timeline: `local + offset`.
    pub fn local_to_remote(&self, local: PtpTimestamp) -> (r: PtpTimestamp)
        ensures
            r == PtpTimestamp::spec_from_nanos(local.spec_nanos() + self.spec_offset_ns()),
    {
        proof {
            use_type_invariant(self);
            assert(local.spec_nanos() < bound96()) by (nonlinear_arith)
                requires
                    local.spec_nanos() == local.seconds * 1_000_000_000 + local.nanoseconds,
                    local.seconds <= u64::MAX,
                    local.nanoseconds <= u32::MAX,
            ;
        }
        PtpTimestamp::from_nanos(local.to_nanos() + self.offset_ns)
    }

    /// The local time at which the sample with RTP timestamp `rtp` plays,
    /// given that the sample `anchor_rtp` plays at the remote time
    /// `anchor_ptp`: the RTP distance is taken as a signed 32-bit number
    /// (so the counter may wrap), turned into nanoseconds at `sample_rate`
    /// (rounded toward zero), added to the anchor, and the result moved to
    /// the local timeline.
    pub fn rtp_to_local_ptp(
        &self,
        rtp: u32,
        sample_rate: u32,
        anchor_rtp: u32,
        anchor_ptp: PtpTimestamp,
    ) -> (r: PtpTimestamp)
        requires
            sample_rate > 0,
        ensures
            r == PtpTimestamp::spec_from_nanos(
                anchor_ptp.spec_nanos() + rtp_nanos(rtp_distance(rtp, anchor_rtp), sample_rate)
                    - self.spec_offset_ns(),
            ),
    {
        proof {
            use_type_invariant(self);
            assert(anchor_ptp.spec_nanos() < bound96()) by (nonlinear_arith)
                requires
                    anchor_ptp.spec_nanos() == anchor_ptp.seconds * 1_000_000_000
                        + anchor_ptp.nanoseconds,
                    anchor_ptp.seconds <= u64::MAX,
                    anchor_ptp.nanoseconds <= u32::MAX,
            ;
        }
        let diff = signed_distance(rtp, anchor_rtp);
        let nanos: i128 = if diff >= 0 {
            assert((diff as u128) * 1_000_000_000 < 0x1_0000_0000_0000_0000) by (nonlinear_arith)
                requires
                    0 <= diff <= 0x7fff_ffff,
            ;
            (((diff as u128) * 1_000_000_000) / (sample_rate as u128)) as i128
        } else {
            assert(((-(diff as i128)) as u128) * 1_000_000_000 < 0x1_0000_0000_0000_0000)
                by (nonlinear_arith)
                requires
                    0 < -(diff as i128) <= 0x8000_0000,
            ;
            -(((((-(diff as i128)) as u128) * 1_000_000_000) / (sample_rate as u128)) as i128)
        };
        proof {
            assert(nanos as int == rtp_nanos(diff as int, sample_rate));
        }
        PtpTimestamp::from_nanos(anchor_ptp.to_nanos() + nanos - self.offset_ns)
    }

    /// A description for logs: the identity in hexadecimal, the role, the
    /// number of measurements and whether the clock is synchronized.
    pub fn debug_string(&self) -> (r: String)
        ensures
            r@ == "PtpClock { clock_id: 0x"@ + hex_digits(self.spec_clock_id() as nat, 16) + (
            match self.spec_role() {
                PtpRole::Master => ", role: Master"@,
                PtpRole::Slave => ", role: Slave"@,
            }) + ", measurements: "@ + decimal(self.spec_measurements().len()) + (if self.spec_measurements().len() >= self.spec_min_sync() {
                ", synchronized: true }"@
            } else {
                ", synchronized: false }"@
            }),
    {
        let mut s = String::from_str("PtpClock { clock_id: 0x");
        let id = hex_string(self.clock_id, 16);
        s.append(id.as_str());
        match self.role {
            PtpRole::Master => s.append(", role: Master"),
            PtpRole::Slave => s.append(", role: Slave"),
        }
        s.append(", measurements: ");
        let n = decimal_string(self.measurements.len() as u64);
        s.append(n.as_str());
        if self.measurements.len() >= self.min_sync_measurements {
            s.append(", synchronized: true }");
        } else {
            s.append(", synchronized: false }");
        }
        s
    }
}

/// The distance from `anchor` to `rtp` on the wrapping 32-bit RTP counter,
/// as a signed number.
pub open spec fn rtp_distance(rtp: u32, anchor: u32) -> int {
    let d = (rtp as int - anchor as int + 0x1_0000_0000) % 0x1_0000_0000;
    if d >= 0x8000_0000 {
        d - 0x1_0000_0000
    } else {
        d
    }
}

/// `samples` at `rate` samples per second, in nanoseconds, rounded toward
/// zero.
pub open spec fn rtp_nanos(samples: int, rate: u32) -> int {
    if samples >= 0 {
        (samples * 1_000_000_000) / (rate as int)
    } else {
        -(((-samples) * 1_000_000_000) / (rate as int))
    }
}

fn signed_distance(rtp: u32, anchor: u32) -> (r: i64)
    ensures
        r == rtp_distance(rtp, anchor),
        -0x8000_0000 <= r < 0x8000_0000,
{
    let d: u64 = ((rtp as u64 + 0x1_0000_0000) - anchor as u64) % 0x1_0000_0000;
    if d >= 0x8000_0000 {
        d as i64 - 0x1_0000_0000
    } else {
        d as i64
    }
}

} // verus!
