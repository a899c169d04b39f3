//! `setTimeout`, `setInterval` and their like: what a call asks of the timer
//! queue, and how far the queue is drained after a script has run.
use vstd::prelude::*;

use crate::js::arg;
use crate::js::arg::Arg;
use crate::js::double;

verus! {

/// How many batches of timers one draining runs at most.
pub const MAX_BATCHES: u32 = 101;

/// What a call of `setTimeout` or `setInterval` asks of the timer queue. The
/// callback is the first argument of the call, its own arguments are those
/// from the third on.
#[derive(Debug, Clone, Copy, PartialEq, Eq, Structural)]
pub struct TimerRequest {
    /// After how many milliseconds the callback is to be called.
    pub delay_ms: u64,
    /// Whether it is to be called again and again.
    pub is_interval: bool,
    /// With what interval, where it is.
    pub interval_ms: Option<u64>,
}

/// The delay that a call asks for: the second argument without its fraction,
/// zero where it is no number.
pub open spec fn delay(args: Seq<Arg>) -> u64 {
    double::clamped(double::truncated(arg::number_at(args, 1)), 0, u64::MAX as int) as u64
}

/// What a call asks of the timer queue: nothing where its first argument
/// cannot be called.
pub open spec fn timer_request(args: Seq<Arg>, interval: bool) -> Option<TimerRequest> {
    if arg::callable_at(args, 0) {
        Some(
            TimerRequest {
                delay_ms: delay(args),
                is_interval: interval,
                interval_ms: if interval {
                    Some(delay(args))
                } else {
                    None
                },
            },
        )
    } else {
        None
    }
}

fn set_timer(args: &[Arg], interval: bool) -> (r: Option<TimerRequest>)
    ensures
        r == timer_request(args@, interval),
{
    if !arg::callable(args, 0) {
        return None;
    }
    let delay_ms: u64 = double::to_u64(arg::number_or_zero(args, 1));
    Some(
        TimerRequest {
            delay_ms,
            is_interval: interval,
            interval_ms: if interval {
                Some(delay_ms)
            } else {
                None
            },
        },
    )
}

/// `setTimeout(callback, delay, ...)`
pub fn set_timeout(args: &[Arg]) -> (r: Option<TimerRequest>)
    requires
        args@.len() != 1,
    ensures
        r == timer_request(args@, false),
{
    set_timer(args, false)
}

/// `setInterval(callback, delay, ...)`
pub fn set_interval(args: &[Arg]) -> (r: Option<TimerRequest>)
    requires
        args@.len() != 1,
    ensures
        r == timer_request(args@, true),
{
    set_timer(args, true)
}

/// The timer that a call cancels, if an id is given.
pub open spec fn cancelled(args: Seq<Arg>) -> Option<u64> {
    match arg::given_number(args, 0) {
        Some(bits) => Some(double::clamped(double::truncated(bits), 0, u64::MAX as int) as u64),
        None => None,
    }
}

/// `clearTimeout(id)` and `clearInterval(id)`: the timer to cancel, if an id is given.
pub fn clear_timer(args: &[Arg]) -> (r: Option<u64>)
    ensures
        r == cancelled(args@),
        r == match arg::given_number(args@, 0) {
            Some(bits) => Some(
                double::clamped(double::truncated(bits), 0, u64::MAX as int) as u64,
            ),
            None => None,
        },
{
    match arg::number(args, 0) {
        Some(bits) => Some(double::to_u64(bits)),
        None => None,
    }
}

/// The interval with which a timer that has fired is scheduled again.
pub open spec fn again_after(is_interval: bool, interval_ms: Option<u64>) -> Option<u64> {
    if is_interval {
        match interval_ms {
            Some(n) => if n >= 1 {
                Some(n)
            } else {
                Some(1)
            },
            None => Some(1),
        }
    } else {
        None
    }
}

/// The interval with which a timer that has fired is scheduled again; nothing
/// for one that fires once. It is never less than a millisecond.
pub fn rearm(is_interval: bool, interval_ms: Option<u64>) -> (r: Option<u64>)
    ensures
        r == again_after(is_interval, interval_ms),
        r == if is_interval {
            match interval_ms {
                Some(n) => if n >= 1 {
                    Some(n)
                } else {
                    Some(1)
                },
                None => Some(1),
            }
        } else {
            None
        },
{
    if !is_interval {
        return None;
    }
    match interval_ms {
        Some(n) => if n >= 1 {
            Some(n)
        } else {
            Some(1)
        },
        None => Some(1),
    }
}

/// A draining of the timer queue: how many batches it has run.
#[derive(Debug, Clone, Copy, PartialEq, Eq, Structural)]
pub struct Drain {
    pub batches: u32,
}

impl Drain {
    /// No more batches were run than one draining may.
    pub open spec fn wf(self) -> bool {
        self.batches <= MAX_BATCHES
    }

    /// A draining begins.
    pub fn new() -> (r: Drain)
        ensures
            r.wf(),
            r.batches == 0,
    {
        Drain { batches: 0 }
    }

    /// Whether the queue is asked for timers that are due once more.
    pub fn goes_on(&self) -> (r: bool)
        ensures
            r == (self.batches < MAX_BATCHES),
    {
        self.batches < MAX_BATCHES
    }

    /// Whether timers that are due are run as one more batch: not where none
    /// is due, nor where as many batches were run as one draining may.
    pub fn runs(&mut self, due: usize) -> (r: bool)
        requires
            old(self).wf(),
        ensures
            final(self).wf(),
            r == (due > 0 && old(self).batches < MAX_BATCHES),
            final(self).batches == if r {
                old(self).batches + 1
            } else {
                old(self).batches as int
            },
    {
        if due == 0 || self.batches >= MAX_BATCHES {
            return false;
        }
        self.batches = self.batches + 1;
        true
    }
}

/// A timer is set exactly if there is something to call. It waits for the delay
/// that was asked for; an interval comes again after that same delay, a timeout
/// does not come again.
pub proof fn lemma_timer(args: Seq<Arg>, interval: bool)
    ensures
        timer_request(args, interval) is Some <==> arg::callable_at(args, 0),
        timer_request(args, interval) matches Some(t) ==> {
            &&& t.is_interval == interval
            &&& t.interval_ms is Some <==> interval
            &&& interval ==> t.interval_ms == Some(t.delay_ms)
            &&& t.delay_ms == timer_request(args, !interval)->0.delay_ms
        },
{
}

/// The delay is the second argument without its fraction: a number from zero to
/// what 64 bits hold as it is, a negative one as none, and none is none.
pub proof fn lemma_delay(args: Seq<Arg>)
    ensures
        args.len() < 2 || !(args[1].kind is Number) ==> delay(args) == 0,
        args.len() >= 2 ==> (args[1].kind matches arg::Kind::Number(bits) ==> {
            let n = double::truncated(bits);
            &&& 0 <= n <= u64::MAX ==> delay(args) == n
            &&& n < 0 ==> delay(args) == 0
            &&& n > u64::MAX ==> delay(args) == u64::MAX
        }),
{
    if args.len() < 2 || !(args[1].kind is Number) {
        assert(arg::number_at(args, 1) == 0);
        assert(double::truncated(0) == 0);
    }
}

/// A timer comes again exactly if it was set as an interval, then after the
/// delay that was asked for and never sooner than after a millisecond.
pub proof fn lemma_comes_again(args: Seq<Arg>, interval: bool)
    requires
        arg::callable_at(args, 0),
    ensures
        ({
            let t = timer_request(args, interval)->0;
            let n = again_after(t.is_interval, t.interval_ms);
            &&& n is Some <==> interval
            &&& n matches Some(ms) ==> ms >= 1 && ms >= t.delay_ms && (ms == t.delay_ms || t.delay_ms
                == 0)
        }),
{
}

/// The timer whose number is given is cancelled, and none where no number is.
pub proof fn lemma_cancelled(args: Seq<Arg>)
    ensures
        cancelled(args) is Some <==> args.len() > 0 && args[0].kind is Number,
        args.len() > 0 ==> (args[0].kind matches arg::Kind::Number(bits) ==> (0 <= double::truncated(
            bits,
        ) <= u64::MAX ==> cancelled(args) == Some(double::truncated(bits) as u64))),
{
}

/// An interval whose length is not known comes again after a millisecond.
pub proof fn lemma_shortest_interval(n: u64)
    ensures
        again_after(true, None) == Some(1u64),
        n >= 1 ==> again_after(true, Some(n)) == Some(n),
        again_after(true, Some(0)) == Some(1u64),
        again_after(false, Some(n)) is None,
{
}

} // verus!
