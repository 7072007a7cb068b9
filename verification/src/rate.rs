//! The aggregate rate limiter: a single token bucket shared by every segment
//! task of every engine. Tokens are bytes; the bucket refills with wall-clock
//! time at the configured rate and one second's worth at most is held, so no
//! window can burst past the cap by more than one bucket.

use vstd::prelude::*;
use vstd::arithmetic::div_mod::{
    lemma_fundamental_div_mod, lemma_mod_bound, lemma_div_is_ordered, lemma_div_multiples_vanish,
};

verus! {

pub const NANOS_PER_SEC: u64 = 1_000_000_000;

/// The process-wide token bucket. `rate` is bytes per second; the capacity
/// equals the rate, one second of burst.
#[derive(Clone, Copy, Debug, PartialEq, Eq, Structural)]
pub struct TokenBucket {
    pub rate: u64,
    pub tokens: u64,
    pub last_ns: u64,
}

pub open spec fn wf_bucket(b: TokenBucket) -> bool {
    &&& b.rate >= 1
    &&& b.tokens <= b.rate
}

/// Tokens earned by `elapsed` nanoseconds, rounded down: time never buys more
/// than `rate` per second.
pub open spec fn earned(elapsed: int, rate: int) -> int {
    elapsed * rate / (NANOS_PER_SEC as int)
}

/// The bucket after a refill at `now`: topped up by what the elapsed time
/// earned, but never past the capacity.
pub open spec fn spec_refill(b: TokenBucket, now: u64) -> TokenBucket {
    let add = earned(now - b.last_ns, b.rate as int);
    let t = if b.tokens + add > b.rate {
        b.rate as int
    } else {
        b.tokens + add
    };
    TokenBucket { rate: b.rate, tokens: t as u64, last_ns: now }
}

/// The bucket after asking for `n` tokens, and whether they were granted.
pub open spec fn spec_acquire(b: TokenBucket, n: u64) -> (TokenBucket, bool) {
    if n <= b.tokens {
        (TokenBucket { tokens: (b.tokens - n) as u64, ..b }, true)
    } else {
        (b, false)
    }
}

impl TokenBucket {
    /// A full bucket: a burst of one second is available at once.
    pub fn new(rate: u64, now_ns: u64) -> (r: TokenBucket)
        requires
            rate >= 1,
        ensures
            wf_bucket(r),
            r.rate == rate,
            r.tokens == rate,
            r.last_ns == now_ns,
    {
        TokenBucket { rate, tokens: rate, last_ns: now_ns }
    }

    /// Tops the bucket up for the time passed since the last refill.
    pub fn refill(&mut self, now_ns: u64)
        requires
            wf_bucket(*old(self)),
            now_ns >= old(self).last_ns,
        ensures
            wf_bucket(*final(self)),
            *final(self) == spec_refill(*old(self), now_ns),
            final(self).tokens >= old(self).tokens,
    {
        let elapsed: u64 = now_ns - self.last_ns;
        proof {
            assert(elapsed as int * self.rate as int <= u128::MAX) by (nonlinear_arith)
                requires
                    0 <= elapsed <= u64::MAX,
                    0 <= self.rate <= u64::MAX,
            ;
        }
        let prod: u128 = (elapsed as u128) * (self.rate as u128);
        let add128: u128 = prod / (NANOS_PER_SEC as u128);
        let room: u64 = self.rate - self.tokens;
        proof {
            assert((elapsed as u128) * (self.rate as u128) == elapsed as int * self.rate as int)
                by (nonlinear_arith);
        }
        if add128 >= room as u128 {
            self.tokens = self.rate;
        } else {
            self.tokens = self.tokens + (add128 as u64);
        }
        self.last_ns = now_ns;
    }

    /// Takes `n` tokens if they are all there; never blocks and never
    /// overdraws.
    pub fn try_acquire(&mut self, n: u64) -> (granted: bool)
        requires
            wf_bucket(*old(self)),
        ensures
            wf_bucket(*final(self)),
            (*final(self), granted) == spec_acquire(*old(self), n),
            granted == (n <= old(self).tokens),
            granted ==> final(self).tokens == old(self).tokens - n,
            !granted ==> *final(self) == *old(self),
    {
        if n <= self.tokens {
            self.tokens = self.tokens - n;
            true
        } else {
            false
        }
    }

    /// How long to sleep before `n` tokens can be there: zero when they
    /// already are, else the time the missing tokens take to accrue, rounded
    /// up (and saturated for requests beyond what a sleep can buy).
    pub fn wait_hint_ns(&self, n: u64) -> (r: u64)
        requires
            wf_bucket(*self),
        ensures
            n <= self.tokens ==> r == 0,
            n > self.tokens ==> r >= 1 && ({
                let exact = ((n - self.tokens) * (NANOS_PER_SEC as int) + self.rate - 1)
                    / (self.rate as int);
                r == if exact > u64::MAX {
                    u64::MAX as int
                } else {
                    exact
                }
            }),
    {
        if n <= self.tokens {
            return 0;
        }
        let missing: u128 = (n - self.tokens) as u128;
        proof {
            assert(missing * (NANOS_PER_SEC as u128) + self.rate <= u128::MAX) by (nonlinear_arith)
                requires
                    0 <= missing <= u64::MAX,
                    0 <= self.rate <= u64::MAX,
            ;
        }
        let num: u128 = missing * (NANOS_PER_SEC as u128) + (self.rate as u128 - 1);
        let hint: u128 = num / (self.rate as u128);
        proof {
            assert(missing >= 1);
            assert(num >= self.rate as u128) by (nonlinear_arith)
                requires
                    num == missing * (NANOS_PER_SEC as u128) + (self.rate as u128 - 1),
                    missing >= 1,
                    self.rate >= 1,
            ;
            assert(hint >= 1) by (nonlinear_arith)
                requires
                    hint == num / (self.rate as u128),
                    num >= self.rate as u128,
                    self.rate >= 1,
            ;
        }
        if hint > u64::MAX as u128 {
            u64::MAX
        } else {
            hint as u64
        }
    }
}

/// Runs a trace of limiter events — for each, the clock reading when a caller
/// asked and the bytes it asked for — as refill-then-acquire steps; yields
/// the final bucket and the total bytes granted. A clock reading from the
/// past refills nothing.
pub open spec fn run_trace(b: TokenBucket, events: Seq<(u64, u64)>) -> (TokenBucket, int)
    decreases events.len(),
{
    if events.len() == 0 {
        (b, 0)
    } else {
        let (b1, g) = run_trace(b, events.drop_last());
        let (t, n) = events.last();
        let b2 = spec_refill(b1, if t >= b1.last_ns {
            t
        } else {
            b1.last_ns
        });
        let (b3, ok) = spec_acquire(b2, n);
        (b3, g + if ok {
            n as int
        } else {
            0
        })
    }
}

/// Division by a positive constant is superadditive: two floors never exceed
/// the floor of the sum.
proof fn lemma_div_superadd(x: int, y: int, d: int)
    requires
        x >= 0,
        y >= 0,
        d > 0,
    ensures
        x / d + y / d <= (x + y) / d,
{
    lemma_fundamental_div_mod(x, d);
    lemma_fundamental_div_mod(y, d);
    lemma_mod_bound(x, d);
    lemma_mod_bound(y, d);
    assert(x + y >= d * (x / d + y / d)) by (nonlinear_arith)
        requires
            x == d * (x / d) + x % d,
            y == d * (y / d) + y % d,
            x % d >= 0,
            y % d >= 0,
    ;
    lemma_div_is_ordered(d * (x / d + y / d), x + y, d);
    lemma_div_multiples_vanish(x / d + y / d, d);
}

proof fn lemma_run_trace_bound(b: TokenBucket, events: Seq<(u64, u64)>)
    requires
        wf_bucket(b),
    ensures
        ({
            let (bf, g) = run_trace(b, events);
            &&& wf_bucket(bf)
            &&& bf.rate == b.rate
            &&& bf.last_ns >= b.last_ns
            &&& g >= 0
            &&& g + bf.tokens <= b.tokens + earned(bf.last_ns - b.last_ns, b.rate as int)
        }),
    decreases events.len(),
{
    let g_per_ns = NANOS_PER_SEC as int;
    if events.len() == 0 {
        assert(earned(0, b.rate as int) == 0);
    } else {
        lemma_run_trace_bound(b, events.drop_last());
        let (b1, g) = run_trace(b, events.drop_last());
        let (t, n) = events.last();
        let now = if t >= b1.last_ns {
            t
        } else {
            b1.last_ns
        };
        let b2 = spec_refill(b1, now);
        assert(b2.tokens <= b1.tokens + earned(now - b1.last_ns, b.rate as int));
        lemma_div_superadd(
            (b1.last_ns - b.last_ns) * b.rate as int,
            (now - b1.last_ns) * b.rate as int,
            g_per_ns,
        );
        assert((b1.last_ns - b.last_ns) * b.rate as int + (now - b1.last_ns) * b.rate as int == (
        now - b.last_ns) * b.rate as int) by (nonlinear_arith);
    }
}

/// The rate cap: whatever the interleaving of engines and segments, a trace
/// that ends by `t_end` is granted at most one bucket's burst plus what the
/// elapsed time earns — so downloading `total` bytes at rate `R` takes at
/// least `(total - R) / R` seconds.
pub proof fn lemma_rate_cap(b: TokenBucket, events: Seq<(u64, u64)>, t_end: u64)
    requires
        wf_bucket(b),
        t_end >= b.last_ns,
        forall|i: int| 0 <= i < events.len() ==> (#[trigger] events[i]).0 <= t_end,
    ensures
        run_trace(b, events).1 <= b.rate + earned(t_end - b.last_ns, b.rate as int),
    decreases events.len(),
{
    lemma_run_trace_bound(b, events);
    let (bf, g) = run_trace(b, events);
    lemma_trace_last_le(b, events, t_end);
    assert((bf.last_ns - b.last_ns) * b.rate as int <= (t_end - b.last_ns) * b.rate as int)
        by (nonlinear_arith)
        requires
            bf.last_ns <= t_end,
            b.last_ns <= bf.last_ns,
            b.rate >= 1,
    ;
    lemma_div_is_ordered(
        (bf.last_ns - b.last_ns) * b.rate as int,
        (t_end - b.last_ns) * b.rate as int,
        NANOS_PER_SEC as int,
    );
}

proof fn lemma_trace_last_le(b: TokenBucket, events: Seq<(u64, u64)>, t_end: u64)
    requires
        t_end >= b.last_ns,
        forall|i: int| 0 <= i < events.len() ==> (#[trigger] events[i]).0 <= t_end,
    ensures
        run_trace(b, events).0.last_ns <= t_end,
    decreases events.len(),
{
    if events.len() > 0 {
        lemma_trace_last_le(b, events.drop_last(), t_end);
    }
}

} // verus!
