//! Statistics over recent measurements.

use std::collections::VecDeque;

use vstd::prelude::*;

use crate::sync_buffer::drop_front;
use crate::sync_model::overflow;

verus! {

/// How many measurements a window keeps.
pub const SAMPLE_WINDOW: usize = 256;

/// How many of the samples are at most `v`.
pub open spec fn at_most(samples: Seq<u64>, v: int) -> nat
    decreases samples.len(),
{
    if samples.len() == 0 {
        0
    } else {
        at_most(samples.drop_last(), v) + if samples.last() <= v {
            1nat
        } else {
            0
        }
    }
}

/// `v` is the smallest sample that at least `percent` of a hundred samples do not exceed.
pub open spec fn is_percentile(samples: Seq<u64>, percent: u64, v: u64) -> bool {
    &&& samples.contains(v)
    &&& at_most(samples, v as int) * 100 >= percent * samples.len()
    &&& at_most(samples, v - 1) * 100 < percent * samples.len()
}

/// The sum of the samples.
pub open spec fn total(samples: Seq<u64>) -> nat
    decreases samples.len(),
{
    if samples.len() == 0 {
        0
    } else {
        total(samples.drop_last()) + samples.last() as nat
    }
}

/// The window after one more sample: the oldest gives way where there are too many.
pub open spec fn recorded(samples: Seq<u64>, v: u64) -> Seq<u64> {
    let all = samples.push(v);
    all.skip(overflow(all.len() as int, SAMPLE_WINDOW as int))
}

proof fn lemma_at_most_bound(samples: Seq<u64>, v: int)
    ensures
        at_most(samples, v) <= samples.len(),
        v < 0 ==> at_most(samples, v) == 0,
        v >= u64::MAX ==> at_most(samples, v) == samples.len(),
    decreases samples.len(),
{
    if samples.len() > 0 {
        lemma_at_most_bound(samples.drop_last(), v);
    }
}

proof fn lemma_at_most_grows(samples: Seq<u64>, v: int, w: int)
    requires
        v <= w,
    ensures
        at_most(samples, v) <= at_most(samples, w),
    decreases samples.len(),
{
    if samples.len() > 0 {
        lemma_at_most_grows(samples.drop_last(), v, w);
    }
}

proof fn lemma_at_most_skips(samples: Seq<u64>, v: int)
    requires
        forall|i: int| 0 <= i < samples.len() ==> #[trigger] samples[i] != v,
    ensures
        at_most(samples, v) == at_most(samples, v - 1),
    decreases samples.len(),
{
    if samples.len() > 0 {
        let rest = samples.drop_last();
        assert forall|i: int| 0 <= i < rest.len() implies #[trigger] rest[i] != v by {
            assert(samples[i] != v);
        }
        assert(samples[samples.len() - 1] != v);
        lemma_at_most_skips(rest, v);
    }
}

/// As many samples as there are up to `v` there are up to some sample not above `v`.
proof fn lemma_count_is_reached(samples: Seq<u64>, v: int) -> (w: u64)
    requires
        v <= u64::MAX,
        at_most(samples, v) > 0,
    ensures
        samples.contains(w),
        w <= v,
        at_most(samples, w as int) == at_most(samples, v),
    decreases v,
{
    lemma_at_most_bound(samples, v);
    if samples.contains(v as u64) {
        v as u64
    } else {
        assert forall|i: int| 0 <= i < samples.len() implies #[trigger] samples[i] != v by {}
        lemma_at_most_skips(samples, v);
        lemma_at_most_bound(samples, v - 1);
        lemma_count_is_reached(samples, v - 1)
    }
}

/// There is at most one percentile.
pub proof fn law_percentile_is_unique(samples: Seq<u64>, percent: u64, v: u64, w: u64)
    requires
        is_percentile(samples, percent, v),
        is_percentile(samples, percent, w),
    ensures
        v == w,
{
    if v < w {
        lemma_at_most_grows(samples, v as int, w - 1);
    } else if w < v {
        lemma_at_most_grows(samples, w as int, v - 1);
    }
}

/// A higher percentile is never smaller.
pub proof fn law_percentiles_ascend(samples: Seq<u64>, low: u64, high: u64, v: u64, w: u64)
    requires
        low <= high,
        is_percentile(samples, low, v),
        is_percentile(samples, high, w),
    ensures
        v <= w,
{
    if w < v {
        lemma_at_most_grows(samples, w as int, v - 1);
        assert(low * samples.len() <= high * samples.len()) by (nonlinear_arith)
            requires
                low <= high,
                samples.len() >= 0,
        ;
    }
}

/// Memory is bounded: a window never holds more than it is meant to.
pub proof fn law_window_is_bounded(samples: Seq<u64>, v: u64)
    requires
        samples.len() <= SAMPLE_WINDOW,
    ensures
        recorded(samples, v).len() <= SAMPLE_WINDOW,
        recorded(samples, v).last() == v,
        samples.len() < SAMPLE_WINDOW ==> recorded(samples, v) == samples.push(v),
{
    assert(samples.push(v).skip(0) =~= samples.push(v));
}

/// The most recent measurements.
pub struct SampleWindow {
    samples: VecDeque<u64>,
}

impl View for SampleWindow {
    type V = Seq<u64>;

    closed spec fn view(&self) -> Seq<u64> {
        self.samples@
    }
}

impl SampleWindow {
    #[verifier::type_invariant]
    spec fn bounded(&self) -> bool {
        self.samples@.len() <= SAMPLE_WINDOW
    }

    /// An empty window.
    pub fn new() -> (window: SampleWindow)
        ensures
            window@ == Seq::<u64>::empty(),
    {
        SampleWindow { samples: VecDeque::new() }
    }

    /// How many samples there are.
    pub fn len(&self) -> (n: usize)
        ensures
            n == self@.len(),
            n <= SAMPLE_WINDOW,
    {
        proof {
            use_type_invariant(self);
        }
        self.samples.len()
    }

    /// Takes in a sample.
    pub fn record(&mut self, v: u64)
        ensures
            final(self)@ == recorded(old(self)@, v),
    {
        proof {
            use_type_invariant(&*self);
        }
        let mut samples: VecDeque<u64> = VecDeque::new();
        std::mem::swap(&mut samples, &mut self.samples);
        samples.push_back(v);
        let held: usize = samples.len();
        let extra: usize = if held > SAMPLE_WINDOW {
            held - SAMPLE_WINDOW
        } else {
            0
        };
        drop_front(&mut samples, extra);
        self.samples = samples;
    }

    fn count_at_most(&self, v: u64) -> (n: u64)
        ensures
            n == at_most(self@, v as int),
            n <= self@.len() <= SAMPLE_WINDOW,
    {
        proof {
            use_type_invariant(self);
        }
        let mut n: u64 = 0;
        let mut i: usize = 0;
        assert(self@.take(0) =~= Seq::empty());
        while i < self.samples.len()
            invariant
                i <= self@.len() <= SAMPLE_WINDOW,
                n <= i,
                n == at_most(self@.take(i as int), v as int),
            decreases self@.len() - i,
        {
            assert(self@.take(i + 1).drop_last() =~= self@.take(i as int));
            if self.samples[i] <= v {
                n += 1;
            }
            i += 1;
        }
        assert(self@.take(i as int) =~= self@);
        n
    }

    /// The smallest sample that at least `percent` of a hundred samples do not exceed. Without
    /// samples there is none.
    pub fn percentile(&self, percent: u64) -> (value: Option<u64>)
        requires
            1 <= percent <= 100,
        ensures
            match value {
                Some(v) => is_percentile(self@, percent, v),
                None => self@.len() == 0,
            },
    {
        let n: usize = self.len();
        assert(percent * n <= 100 * 256) by (nonlinear_arith)
            requires
                percent <= 100,
                n <= 256,
        ;
        let needed: u64 = percent * n as u64;
        let mut best: Option<u64> = None;
        let mut i: usize = 0;
        while i < n
            invariant
                n == self@.len(),
                n <= SAMPLE_WINDOW,
                needed == percent * n,
                i <= n,
                match best {
                    Some(b) => self@.contains(b) && at_most(self@, b as int) * 100 >= needed,
                    None => true,
                },
                forall|j: int|
                    0 <= j < i && at_most(self@, (#[trigger] self@[j]) as int) * 100 >= needed
                        ==> (best matches Some(b) && b <= self@[j]),
            decreases n - i,
        {
            let v: u64 = self.samples[i];
            let better: bool = match best {
                Some(b) => v < b,
                None => true,
            };
            if better && self.count_at_most(v) * 100 >= needed {
                assert(self@[i as int] == v);
                best = Some(v);
            }
            i += 1;
        }
        proof {
            if n > 0 {
                lemma_at_most_bound(self@, u64::MAX as int);
                let top = lemma_count_is_reached(self@, u64::MAX as int);
                let t = choose|t: int| 0 <= t < self@.len() && self@[t] == top;
                assert(at_most(self@, self@[t] as int) * 100 >= needed) by (nonlinear_arith)
                    requires
                        at_most(self@, self@[t] as int) == n,
                        needed == percent * n,
                        percent <= 100,
                ;
                assert(best is Some);
                let b = best->0;
                if at_most(self@, b - 1) * 100 >= needed {
                    assert(needed > 0) by (nonlinear_arith)
                        requires
                            needed == percent * n,
                            percent >= 1,
                            n >= 1,
                    ;
                    let w = lemma_count_is_reached(self@, b - 1);
                    let k = choose|k: int| 0 <= k < self@.len() && self@[k] == w;
                    assert(at_most(self@, self@[k] as int) * 100 >= needed);
                }
            }
        }
        best
    }

    /// The mean of the samples, without its fraction. Without samples there is none.
    pub fn mean(&self) -> (value: Option<u64>)
        ensures
            match value {
                Some(v) => self@.len() > 0 && v == total(self@) / self@.len(),
                None => self@.len() == 0,
            },
    {
        let n: usize = self.len();
        if n == 0 {
            return None;
        }
        let mut sum: u128 = 0;
        let mut i: usize = 0;
        assert(self@.take(0) =~= Seq::empty());
        while i < n
            invariant
                n == self@.len(),
                n <= SAMPLE_WINDOW,
                i <= n,
                sum == total(self@.take(i as int)),
                sum <= i * u64::MAX,
            decreases n - i,
        {
            assert(self@.take(i + 1).drop_last() =~= self@.take(i as int));
            assert(i * u64::MAX + u64::MAX <= 256 * u64::MAX) by (nonlinear_arith)
                requires
                    i < 256,
            ;
            sum += self.samples[i] as u128;
            i += 1;
        }
        assert(self@.take(i as int) =~= self@);
        let mean: u128 = sum / n as u128;
        assert(mean <= u64::MAX) by (nonlinear_arith)
            requires
                mean == sum / n as u128,
                sum <= n * u64::MAX,
                n > 0,
        ;
        Some(mean as u64)
    }
}

/// How much a packet was early or late against the one before it: the difference between how far
/// apart the two arrived and how far apart they were sent.
pub open spec fn drift(last_sent: u64, last_received: u64, sent: u64, received: u64) -> nat {
    let d = (received - last_received) - (sent - last_sent);
    if d < 0 {
        (-d) as nat
    } else {
        d as nat
    }
}

/// The moving average of the drift, in sixteenths: it follows by a sixteenth of the distance.
pub open spec fn smoothed(sixteenths: nat, drift: nat) -> nat {
    (sixteenths + drift - sixteenths / 16) as nat
}

/// Jitter of a stream: how irregularly its packets arrive, whatever the clocks of the two ends
/// show.
pub struct Jitter {
    last: Option<(u64, u64)>,
    sixteenths: u128,
}

/// What is known of the jitter of a stream.
#[verifier::ext_equal]
pub struct JitterView {
    /// When the latest packet was sent and when it was received.
    pub last: Option<(u64, u64)>,
    pub sixteenths: nat,
}

impl JitterView {
    /// After one more packet.
    pub open spec fn observed(self, sent: u64, received: u64) -> JitterView {
        JitterView {
            last: Some((sent, received)),
            sixteenths: match self.last {
                Some((s, r)) => smoothed(self.sixteenths, drift(s, r, sent, received)),
                None => self.sixteenths,
            },
        }
    }
}

impl View for Jitter {
    type V = JitterView;

    closed spec fn view(&self) -> JitterView {
        JitterView { last: self.last, sixteenths: self.sixteenths as nat }
    }
}

impl Jitter {
    #[verifier::type_invariant]
    spec fn bounded(&self) -> bool {
        self.sixteenths <= 0x40_0000_0000_0000_0000
    }

    pub fn new() -> (jitter: Jitter)
        ensures
            jitter@ == (JitterView { last: None, sixteenths: 0 }),
    {
        Jitter { last: None, sixteenths: 0 }
    }

    /// Takes note of a packet.
    pub fn observe(&mut self, sent: u64, received: u64)
        ensures
            final(self)@ == old(self)@.observed(sent, received),
    {
        proof {
            use_type_invariant(&*self);
        }
        if let Some((s, r)) = self.last {
            let late: i128 = (received as i128 - r as i128) - (sent as i128 - s as i128);
            let off: u128 = if late < 0 {
                (-late) as u128
            } else {
                late as u128
            };
            self.sixteenths = self.sixteenths + off - self.sixteenths / 16;
        }
        self.last = Some((sent, received));
    }

    /// The jitter in microseconds, without its fraction.
    pub fn value_us(&self) -> (us: u64)
        ensures
            us == if self@.sixteenths / 16 > u64::MAX {
                u64::MAX as nat
            } else {
                self@.sixteenths / 16
            },
    {
        let whole: u128 = self.sixteenths / 16;
        if whole > u64::MAX as u128 {
            u64::MAX
        } else {
            whole as u64
        }
    }
}

/// Only differences count: clocks that run apart by a fixed amount do not change the jitter.
pub proof fn law_offset_is_no_jitter(last: (u64, u64), next: (u64, u64), offset: int)
    requires
        0 <= last.1 + offset <= u64::MAX,
        0 <= next.1 + offset <= u64::MAX,
    ensures
        drift(last.0, (last.1 + offset) as u64, next.0, (next.1 + offset) as u64) == drift(
            last.0,
            last.1,
            next.0,
            next.1,
        ),
{
}

/// Packets that arrive as regularly as they were sent let the jitter die away.
pub proof fn law_regular_packets_calm(jitter: JitterView, sent: u64, received: u64)
    requires
        jitter.last matches Some((s, r)) && received - r == sent - s,
    ensures
        jitter.observed(sent, received).sixteenths == jitter.sixteenths - jitter.sixteenths / 16,
{
}

/// A percentile splits the samples: at least so many of a hundred lie at or below it, and fewer lie
/// below it. Counted are the samples themselves, whatever their order.
pub proof fn law_percentile_splits(samples: Seq<u64>, percent: u64, v: u64)
    ensures
        is_percentile(samples, percent, v) <==> {
            &&& samples.contains(v)
            &&& samples.filter(|s: u64| s <= v).len() * 100 >= percent * samples.len()
            &&& samples.filter(|s: u64| s < v).len() * 100 < percent * samples.len()
        },
{
    lemma_counts(samples, v as int, |s: u64| s <= v);
    lemma_counts(samples, v - 1, |s: u64| s < v);
}

proof fn lemma_counts(samples: Seq<u64>, v: int, below: spec_fn(u64) -> bool)
    requires
        forall|s: u64| #[trigger] below(s) <==> s <= v,
    ensures
        samples.filter(below).len() == at_most(samples, v),
    decreases samples.len(),
{
    reveal(Seq::filter);
    if samples.len() > 0 {
        lemma_counts(samples.drop_last(), v, below);
        assert(below(samples.last()) <==> samples.last() <= v);
    }
}

/// A window takes a new sample in behind the others, of which only the newest stay: the one that is
/// too many leaves at the front, and the rest keeps its order.
pub proof fn law_window_keeps_the_newest(samples: Seq<u64>, v: u64, i: int)
    requires
        samples.len() <= 256,
        0 <= i < recorded(samples, v).len(),
    ensures
        samples.len() < 256 ==> recorded(samples, v).len() == samples.len() + 1,
        samples.len() == 256 ==> recorded(samples, v).len() == 256,
        recorded(samples, v)[recorded(samples, v).len() - 1] == v,
        samples.len() < 256 && i < samples.len() ==> recorded(samples, v)[i] == samples[i],
        samples.len() == 256 && i < 255 ==> recorded(samples, v)[i] == samples[i + 1],
{
}

/// The sum grows by every sample, and starts from nothing.
pub proof fn law_sum_grows(samples: Seq<u64>, v: u64)
    ensures
        total(Seq::<u64>::empty()) == 0,
        total(samples.push(v)) == total(samples) + v,
{
    assert(samples.push(v).drop_last() =~= samples);
}

/// The drift of a packet is by how much its way took longer or shorter than that of the one before.
pub proof fn law_drift_is_the_change_of_delay(
    last_sent: u64,
    last_received: u64,
    sent: u64,
    received: u64,
)
    ensures
        drift(last_sent, last_received, sent, received) == vstd::math::abs(
            (received - sent) - (last_received - last_sent),
        ),
{
}

/// The jitter follows the drift of every packet by a sixteenth, starting with the second one, and
/// the latest packet is the one that the next is held against.
pub proof fn law_jitter_follows_drift(jitter: JitterView, sent: u64, received: u64)
    ensures
        jitter.observed(sent, received).last == Some((sent, received)),
        jitter.last is None ==> jitter.observed(sent, received).sixteenths == jitter.sixteenths,
        jitter.last matches Some((s, r)) ==> jitter.observed(sent, received).sixteenths
            == jitter.sixteenths - jitter.sixteenths / 16 + vstd::math::abs(
            (received - sent) - (r - s),
        ),
{
}

} // verus!
