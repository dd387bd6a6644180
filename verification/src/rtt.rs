//! Measuring the round trip between the two ends.
//!
//! Each end sends pings with its own time. The other end sends them back as they are, so that
//! the first can tell how long the trip took without knowing the clock of the other.

use vstd::prelude::*;

use crate::metrics::{counted, elapsed, percentile_of, RttMetrics};
use crate::samples::{recorded, total, SampleWindow};

verus! {

/// Whether packets of a measurement are sent again when they are lost. A second try would make
/// the trip seem longer.
pub const RTT_RELIABLE: bool = false;

/// What is to be done about a packet of a measurement.
#[derive(Debug, Clone, Copy, PartialEq, Eq, Structural)]
pub enum RttStep {
    /// Send this time back.
    Echo(u64),
    /// A trip took this long.
    Measured(u64),
}

/// A ping is answered with the time it carries; the time that an answer carries is when the trip
/// began.
pub open spec fn rtt_step(is_ping: bool, ts: u64, now_us: u64) -> RttStep {
    if is_ping {
        RttStep::Echo(ts)
    } else {
        RttStep::Measured(elapsed(ts, now_us))
    }
}

/// What is to be done about a packet of a measurement. Pings are answered always, also by an end
/// that sends none itself.
pub fn answer_rtt(is_ping: bool, ts: u64, now_us: u64) -> (step: RttStep)
    ensures
        is_ping ==> step == RttStep::Echo(ts),
        !is_ping ==> step == RttStep::Measured(elapsed(ts, now_us)),
        step == rtt_step(is_ping, ts, now_us),
{
    if is_ping {
        RttStep::Echo(ts)
    } else if now_us >= ts {
        RttStep::Measured(now_us - ts)
    } else {
        RttStep::Measured(0)
    }
}

impl RttMetrics {
    /// Takes note of a ping that was sent.
    pub fn record_ping(&mut self)
        ensures
            *final(self) == (RttMetrics {
                pings_sent: counted(old(self).pings_sent, 1),
                ..*old(self)
            }),
    {
        self.pings_sent = self.pings_sent.wrapping_add(1);
    }

    /// Handles a packet of a measurement. Returned is the time to send back, for a ping. `trips`
    /// holds the round trips of recent answers.
    pub fn handle_packet(
        &mut self,
        is_ping: bool,
        ts: u64,
        now_us: u64,
        trips: &mut SampleWindow,
    ) -> (echo: Option<u64>)
        ensures
            is_ping ==> {
                &&& echo == Some(ts)
                &&& *final(self) == *old(self)
                &&& final(trips)@ == old(trips)@
            },
            !is_ping ==> {
                &&& echo is None
                &&& final(trips)@ == recorded(old(trips)@, elapsed(ts, now_us))
                &&& final(self).rtt_us_last == Some(elapsed(ts, now_us))
                &&& final(self).rtt_us_mean == Some(
                    (total(final(trips)@) / final(trips)@.len()) as u64,
                )
                &&& percentile_of(final(trips)@, 95, final(self).rtt_us_p95)
                &&& final(self).pings_sent == old(self).pings_sent
                &&& final(self).pongs_received == counted(old(self).pongs_received, 1)
            },
    {
        match answer_rtt(is_ping, ts, now_us) {
            RttStep::Echo(ts) => Some(ts),
            RttStep::Measured(trip) => {
                self.record_trip(trip, trips);
                None
            },
        }
    }
}

/// A round trip is measured by the clock of the end that began it alone: whatever the other end
/// takes for the time, the answer gives how long it has been since the ping.
pub proof fn law_trip_is_measured_by_one_clock(sent_us: u64, other_us: u64, back_us: u64)
    ensures
        rtt_step(true, sent_us, other_us) matches RttStep::Echo(ts) && rtt_step(false, ts, back_us)
            == RttStep::Measured(elapsed(sent_us, back_us)),
{
}

/// A ping comes back with the time it carried, and an answer tells how long the trip took: as much
/// as the clock went on, and nothing where it went back.
pub proof fn law_answers_tell_the_trip(ts: u64, now_us: u64)
    ensures
        rtt_step(true, ts, now_us) == RttStep::Echo(ts),
        rtt_step(false, ts, now_us) matches RttStep::Measured(trip) && (ts <= now_us ==> ts + trip
            == now_us) && (now_us <= ts ==> trip == 0),
{
}

} // verus!
