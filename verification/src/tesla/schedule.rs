//! The TESLA disclosure schedule and the receiver's per-packet accept test.
//!
//! The sender slices its stream into short, equal time slots called intervals,
//! numbered 1, 2, 3, ... Each interval has its own MAC key: packets sent during
//! interval 5 are tagged with key number 5.
//!
//! Keys go public on a fixed delay: interval 5's key rides inside the packets
//! sent `d` intervals later. A packet claiming interval 5 is therefore only
//! trustworthy if it arrived while the sender could not yet have reached
//! interval 5 + d. Any later, and anyone could have forged it.

use vstd::prelude::*;

verus! {

/// The verdict of the per-packet accept test.
#[derive(Debug, Clone, Copy, PartialEq, Eq, Structural)]
pub enum IntervalCheck {
    /// The key of this packet's interval is provably still secret.
    Safe,
    /// The sender may already be disclosing this interval's key: the packet
    /// can no longer prove anything.
    UnsafeLate,
}

/// The TESLA schedule of one stream.
#[derive(Debug, Clone, Copy)]
pub struct TeslaSchedule {
    /// Start of media interval 1 on the shared timebase.
    pub t0_ns: u64,
    /// Interval duration in ns.
    pub t_int_ns: u64,
    /// Key disclosure delay in intervals. At least 2: with a delay of one, a
    /// packet sent at the end of its interval has no time to travel. The time
    /// that it has is `(d - 1) * t_int_ns - d_t_ns`, which must cover the
    /// slowest path that packets may take.
    pub d: u32,
    /// Last usable media interval: the chain is `K_0..=K_n_chain`, with `K_0`
    /// the anchor.
    pub n_chain: u32,
    /// Upper bound on how far the sender's clock can be ahead of the
    /// receiver's.
    pub d_t_ns: u64,
    /// The most chain steps that one disclosure may demand.
    pub g_max: u32,
}

/// The larger of zero and `x`.
pub open spec fn not_below_zero(x: int) -> int {
    if x >= 0 { x } else { 0 }
}

/// The smaller of `x` and the largest 64-bit number.
pub open spec fn clamped(x: int) -> int {
    if x <= u64::MAX { x } else { u64::MAX as int }
}

impl TeslaSchedule {
    /// The numbers that [`TeslaSchedule::new`] accepts.
    pub open spec fn valid(self) -> bool {
        &&& self.t_int_ns > 0
        &&& self.d >= 2
        &&& self.n_chain >= 1
        &&& self.g_max >= 1
    }

    /// The interval that a sender's clock reading falls into: interval 1
    /// starts at `t0_ns`. A reading from before the stream counts as its
    /// start.
    pub open spec fn interval_at(self, clock_ns: int) -> int {
        1 + not_below_zero(clock_ns - self.t0_ns) / (self.t_int_ns as int)
    }

    /// The key that packets of `interval` carry: the one from `d` intervals
    /// ago, or `K_0` where there is none that old.
    pub open spec fn disclosed_at(self, interval: int) -> int {
        not_below_zero(interval - self.d)
    }

    /// The latest interval that the sender can be in when the receiver's
    /// clock reads `arrival_ns`.
    pub open spec fn latest_interval(self, arrival_ns: u64) -> int {
        self.interval_at(clamped(arrival_ns + self.d_t_ns))
    }

    /// Whether a packet of `interval` that arrives at `arrival_ns` is safe:
    /// the sender cannot have reached the interval that discloses its key.
    pub open spec fn is_safe(self, arrival_ns: u64, interval: u32) -> bool {
        self.latest_interval(arrival_ns) < interval + self.d
    }

    /// Creates the schedule.
    pub fn new(
        t0_ns: u64,
        t_int_ns: u64,
        d: u32,
        n_chain: u32,
        d_t_ns: u64,
        g_max: u32,
    ) -> (r: Self)
        requires
            t_int_ns > 0,
            d >= 2,
            n_chain >= 1,
            g_max >= 1,
        ensures
            r == (TeslaSchedule { t0_ns, t_int_ns, d, n_chain, d_t_ns, g_max }),
            r.valid(),
    {
        TeslaSchedule { t0_ns, t_int_ns, d, n_chain, d_t_ns, g_max }
    }

    /// The media interval that a packet sent at `send_ns` belongs to. The
    /// stream must have started, and the chain must reach that far.
    pub fn interval_of(&self, send_ns: u64) -> (r: u32)
        requires
            self.t_int_ns > 0,
            send_ns >= self.t0_ns,
            self.interval_at(send_ns as int) <= self.n_chain,
        ensures
            r == self.interval_at(send_ns as int),
            1 <= r <= self.n_chain,
    {
        let past: u64 = (send_ns - self.t0_ns) / self.t_int_ns;
        (1 + past) as u32
    }

    /// Which key a packet of `interval` carries: the one from `d` intervals
    /// ago. The first `d` intervals carry `K_0`, which is public anyway.
    pub fn disclosed_index(&self, interval: u32) -> (r: u32)
        ensures
            r == self.disclosed_at(interval as int),
    {
        interval.saturating_sub(self.d)
    }

    /// Upper bound on the media interval that the sender can be in, judged
    /// pessimistically from the receiver's clock: the sender's clock is at
    /// most `arrival_ns + d_t_ns`. Left out is the one reading whose interval
    /// number does not fit 64 bits.
    pub fn sender_upper_bound(&self, arrival_ns: u64) -> (r: u64)
        requires
            self.t_int_ns > 0,
            self.latest_interval(arrival_ns) <= u64::MAX,
        ensures
            r == self.latest_interval(arrival_ns),
    {
        let sender_clock: u64 = arrival_ns.saturating_add(self.d_t_ns);
        1 + sender_clock.saturating_sub(self.t0_ns) / self.t_int_ns
    }

    /// The receiver's per-packet accept test for a packet labeled with
    /// `interval` that arrives at `arrival_ns` on the receiver's clock.
    pub fn accepts(&self, arrival_ns: u64, interval: u32) -> (r: IntervalCheck)
        requires
            self.t_int_ns > 0,
            self.latest_interval(arrival_ns) <= u64::MAX,
        ensures
            r == if self.is_safe(arrival_ns, interval) {
                IntervalCheck::Safe
            } else {
                IntervalCheck::UnsafeLate
            },
    {
        let x: u64 = self.sender_upper_bound(arrival_ns);
        if x < interval as u64 + self.d as u64 {
            IntervalCheck::Safe
        } else {
            IntervalCheck::UnsafeLate
        }
    }
}

/// Later clock readings fall into no earlier interval.
pub proof fn lemma_interval_at_monotone(s: TeslaSchedule, a: int, b: int)
    requires
        s.t_int_ns > 0,
        a <= b,
    ensures
        1 <= s.interval_at(a) <= s.interval_at(b),
{
    vstd::arithmetic::div_mod::lemma_div_is_ordered(
        not_below_zero(a - s.t0_ns),
        not_below_zero(b - s.t0_ns),
        s.t_int_ns as int,
    );
    vstd::arithmetic::div_mod::lemma_div_pos_is_pos(
        not_below_zero(a - s.t0_ns),
        s.t_int_ns as int,
    );
}

/// Law: when a packet of interval `i` passes the accept test, the sender has
/// not disclosed key `i` yet. Whatever the sender's clock reads by then, as
/// long as it is at most `d_t_ns` ahead of the receiver's, every packet sent
/// so far discloses a key older than `i`.
pub proof fn law_safe_key_is_undisclosed(
    s: TeslaSchedule,
    arrival_ns: u64,
    interval: u32,
    sender_clock_ns: u64,
)
    requires
        s.t_int_ns > 0,
        interval >= 1,
        sender_clock_ns <= arrival_ns + s.d_t_ns,
        s.is_safe(arrival_ns, interval),
    ensures
        s.disclosed_at(s.interval_at(sender_clock_ns as int)) < interval,
{
    lemma_interval_at_monotone(
        s,
        sender_clock_ns as int,
        clamped(arrival_ns + s.d_t_ns),
    );
}

/// Law: a packet has `(d - 1) * t_int_ns - d_t_ns` to travel, wherever in its
/// interval it was sent. One that arrives within that time passes the accept
/// test.
pub proof fn law_travel_budget(s: TeslaSchedule, send_ns: u64, arrival_ns: u64, interval: u32)
    requires
        s.t_int_ns > 0,
        s.d >= 1,
        send_ns >= s.t0_ns,
        interval == s.interval_at(send_ns as int),
        arrival_ns + s.d_t_ns - send_ns <= (s.d - 1) * s.t_int_ns,
    ensures
        s.is_safe(arrival_ns, interval),
{
    let t = s.t_int_ns as int;
    let sent = send_ns - s.t0_ns;
    let clock = clamped(arrival_ns + s.d_t_ns);
    let now = not_below_zero(clock - s.t0_ns);
    let q = sent / t;
    vstd::arithmetic::div_mod::lemma_fundamental_div_mod(sent, t);
    // the packet was sent before its interval ended
    assert(sent < (q + 1) * t) by (nonlinear_arith)
        requires
            sent == t * q + sent % t,
            0 <= sent % t < t,
    ;
    assert(now < (q + s.d) * t) by (nonlinear_arith)
        requires
            sent < (q + 1) * t,
            now <= sent || now - sent <= (s.d - 1) * t,
            s.d >= 1,
            t > 0,
    ;
    vstd::arithmetic::div_mod::lemma_fundamental_div_mod(now, t);
    let n = now / t;
    assert(n < q + s.d) by (nonlinear_arith)
        requires
            now == t * n + now % t,
            0 <= now % t,
            now < (q + s.d) * t,
            t > 0,
    ;
}

/// Law: an interval is a time slot. A clock reading falls into interval `i`
/// exactly if it lies at least `i - 1` and less than `i` slots after the start;
/// readings from before the start count as the first slot.
pub proof fn law_interval_is_a_time_slot(s: TeslaSchedule, clock_ns: int, i: int)
    requires
        s.t_int_ns > 0,
    ensures
        clock_ns >= s.t0_ns ==> (s.interval_at(clock_ns) == i <==> (i - 1) * s.t_int_ns <= clock_ns
            - s.t0_ns < i * s.t_int_ns),
        clock_ns < s.t0_ns ==> s.interval_at(clock_ns) == 1,
{
    let t = s.t_int_ns as int;
    if clock_ns >= s.t0_ns {
        let x = clock_ns - s.t0_ns;
        let q = x / t;
        vstd::arithmetic::div_mod::lemma_fundamental_div_mod(x, t);
        assert(q * t <= x < (q + 1) * t) by (nonlinear_arith)
            requires
                x == t * q + x % t,
                0 <= x % t < t,
        ;
        if (i - 1) * t <= x < i * t {
            assert(q == i - 1) by (nonlinear_arith)
                requires
                    q * t <= x < (q + 1) * t,
                    (i - 1) * t <= x < i * t,
                    t > 0,
            ;
        }
    } else {
        vstd::arithmetic::div_mod::lemma_div_basics(t);
    }
}

/// Law: when a packet stops being safe. Its interval's key goes public when the
/// interval `d` later begins; the packet is safe exactly while the sender's clock,
/// at most `d_t_ns` ahead, lies before that. Left out: readings that the bound
/// carries past 64 bits.
pub proof fn law_safety_ends_with_disclosure(s: TeslaSchedule, arrival_ns: u64, interval: u32)
    requires
        s.t_int_ns > 0,
        interval + s.d >= 2,
        arrival_ns + s.d_t_ns <= u64::MAX,
    ensures
        s.is_safe(arrival_ns, interval) <==> arrival_ns + s.d_t_ns - s.t0_ns < (interval + s.d - 1)
            * s.t_int_ns,
{
    let t = s.t_int_ns as int;
    let clock = arrival_ns + s.d_t_ns;
    let x = clock - s.t0_ns;
    let m = interval + s.d - 1;
    if x >= 0 {
        let q = x / t;
        vstd::arithmetic::div_mod::lemma_fundamental_div_mod(x, t);
        assert(q < m <==> x < m * t) by (nonlinear_arith)
            requires
                x == t * q + x % t,
                0 <= x % t < t,
        ;
    } else {
        vstd::arithmetic::div_mod::lemma_div_basics(t);
        assert(0 < m * t) by (nonlinear_arith)
            requires
                m >= 1,
                t > 0,
        ;
    }
}

/// Law: packets disclose the key from `d` intervals ago, and the anchor while
/// there is none that old.
pub proof fn law_disclosure_lags_by_the_delay(s: TeslaSchedule, interval: int)
    ensures
        interval >= s.d ==> s.disclosed_at(interval) + s.d == interval,
        interval < s.d ==> s.disclosed_at(interval) == 0,
{
}

} // verus!
