//! Time enters here and nowhere else.

use crate::vocab::Ts;
use vstd::prelude::*;

verus! {

/// `std::time::Instant`: a reading of the monotonic clock.
#[verifier::external_type_specification]
#[verifier::external_body]
pub struct ExInstant(std::time::Instant);

/// `std::time::SystemTime`: a reading of the wall clock.
#[verifier::external_type_specification]
#[verifier::external_body]
pub struct ExSystemTime(std::time::SystemTime);

/// `std::time::SystemTimeError`: an earlier time that was not earlier.
#[verifier::external_type_specification]
#[verifier::external_body]
pub struct ExSystemTimeError(std::time::SystemTimeError);

/// `std::time::Instant::now` reads the monotonic clock. Nothing is claimed of
/// the reading.
#[verifier::external_body]
fn mono_reading() -> std::time::Instant {
    std::time::Instant::now()
}

/// The span from one reading of the monotonic clock to a later one, as
/// `std::time::Instant::duration_since` has it.
pub uninterp spec fn span_since(base: std::time::Instant, later: std::time::Instant) -> std::time::Duration;

/// `std::time::Instant::elapsed` reads the monotonic clock again and gives the
/// span since the reading it is called on. Nothing is claimed of the new
/// reading.
pub assume_specification[ std::time::Instant::elapsed ](
    base: &std::time::Instant,
) -> (r: std::time::Duration)
    ensures
        exists|later: std::time::Instant| r == #[trigger] span_since(*base, later),
;

/// `std::time::SystemTime::now` reads the wall clock. Nothing is claimed of the
/// reading.
#[verifier::external_body]
fn wall_reading() -> std::time::SystemTime {
    std::time::SystemTime::now()
}

/// How many nanoseconds a span lasts, as `std::time::Duration::as_nanos` says.
pub uninterp spec fn nanos_in(d: std::time::Duration) -> nat;

/// `std::time::Duration::as_nanos` gives the length of a span in nanoseconds.
pub assume_specification[ std::time::Duration::as_nanos ](d: &std::time::Duration) -> (r: u128)
    ensures
        r == nanos_in(*d),
;

/// `std::time::Duration::as_millis` gives the whole milliseconds in a span: its
/// nanoseconds by the million, rounded down.
pub assume_specification[ std::time::Duration::as_millis ](d: &std::time::Duration) -> (r: u128)
    ensures
        r == nanos_in(*d) / 1_000_000,
;

/// The span from the Unix epoch to a reading of the wall clock, as
/// `std::time::SystemTime::duration_since` has it. `None` for a reading before
/// the epoch.
pub uninterp spec fn epoch_span(now: std::time::SystemTime) -> Option<std::time::Duration>;

/// `std::time::SystemTime::duration_since`, from the Unix epoch on. A reading
/// before the epoch gives the error. All that is claimed is that the result
/// depends on the reading alone.
#[verifier::external_body]
fn since_epoch(now: &std::time::SystemTime) -> (r: Result<
    std::time::Duration,
    std::time::SystemTimeError,
>)
    ensures
        epoch_span(*now) == (match r {
            Ok(d) => Some(d),
            Err(_) => None,
        }),
{
    now.duration_since(std::time::UNIX_EPOCH)
}

/// Where time stamps come from.
pub trait Clock: Sized {
    /// The clock may read this. One that says nothing of itself promises
    /// nothing.
    open spec fn may_read(self, at: Ts) -> bool {
        true
    }

    fn now(&self) -> (r: Ts)
        ensures
            self.may_read(r),
    ;
}

/// Wall time for "when did this happen", and monotonic time since the clock was
/// made for ordering and latency, which setting the wall clock cannot upset.
pub struct SystemClock {
    mono_base: std::time::Instant,
}

/// The stamp of two readings: milliseconds of wall time since the epoch, `None`
/// for a clock set to before it, and nanoseconds of monotonic time. The upper
/// bits of a reading that is too large are dropped.
pub open spec fn stamped(wall_ms: Option<u128>, mono_ns: u128) -> Ts {
    Ts {
        wall_ms: match wall_ms {
            Some(ms) => ms as i64,
            None => 0,
        },
        mono_ns: mono_ns as u64,
    }
}

/// The stamp of two readings.
pub fn stamp(wall_ms: Option<u128>, mono_ns: u128) -> (r: Ts)
    ensures
        r == stamped(wall_ms, mono_ns),
{
    Ts {
        wall_ms: match wall_ms {
            Some(ms) => ms as i64,
            None => 0,
        },
        mono_ns: mono_ns as u64,
    }
}

/// The stamp of a span since the epoch, `None` for a clock set to before it, and
/// of a span of monotonic time.
pub open spec fn stamped_spans(
    wall: Option<std::time::Duration>,
    mono: std::time::Duration,
) -> Ts {
    stamped(
        match wall {
            Some(d) => Some((nanos_in(d) / 1_000_000) as u128),
            None => None,
        },
        nanos_in(mono) as u128,
    )
}

/// The stamp of a time since the epoch, as far as there is one, and of a time
/// since the clock was made.
pub fn stamp_spans(
    wall: Result<std::time::Duration, std::time::SystemTimeError>,
    mono: std::time::Duration,
) -> (r: Ts)
    ensures
        r == stamped_spans(
            match wall {
                Ok(d) => Some(d),
                Err(_) => None,
            },
            mono,
        ),
{
    let wall_ms: Option<u128> = match wall {
        Ok(d) => Some(d.as_millis()),
        Err(_) => None,
    };
    stamp(wall_ms, mono.as_nanos())
}

impl SystemClock {
    /// The reading its monotonic time is counted from.
    pub closed spec fn base(&self) -> std::time::Instant {
        self.mono_base
    }

    /// What it reads when the wall clock stands at `wall` and the monotonic
    /// clock at `mono`.
    pub open spec fn reads(&self, wall: std::time::SystemTime, mono: std::time::Instant) -> Ts {
        stamped_spans(epoch_span(wall), span_since(self.base(), mono))
    }

    /// A clock whose monotonic time begins now.
    pub fn new() -> SystemClock {
        SystemClock { mono_base: mono_reading() }
    }
}

impl Default for SystemClock {
    fn default() -> SystemClock {
        SystemClock::new()
    }
}

impl Clock for SystemClock {
    /// Some reading of the two clocks.
    open spec fn may_read(self, at: Ts) -> bool {
        exists|wall: std::time::SystemTime, mono: std::time::Instant|
            at == #[trigger] self.reads(wall, mono)
    }

    /// The stamp of the two clocks as they stand: nothing is known of their
    /// readings, but monotonic time is counted from this clock's own base.
    fn now(&self) -> (r: Ts) {
        let wall = wall_reading();
        let since = since_epoch(&wall);
        let elapsed = self.mono_base.elapsed();
        let r = stamp_spans(since, elapsed);
        proof {
            let mono = choose|mono: std::time::Instant|
                elapsed == #[trigger] span_since(self.mono_base, mono);
            assert(r == self.reads(wall, mono));
        }
        r
    }
}

/// Two readings of a clock are in the order of the spans since its base, whatever
/// the wall clock stood at, for as long as the spans can be counted; and a wall
/// clock that stands before the epoch reads 0.
pub proof fn law_readings_keep_order(
    clock: SystemClock,
    wall: std::time::SystemTime,
    mono: std::time::Instant,
    later_wall: std::time::SystemTime,
    later_mono: std::time::Instant,
)
    requires
        nanos_in(span_since(clock.base(), mono)) <= nanos_in(span_since(clock.base(), later_mono))
            <= u64::MAX,
    ensures
        clock.reads(wall, mono).mono_ns <= clock.reads(later_wall, later_mono).mono_ns,
        epoch_span(wall) is None ==> clock.reads(wall, mono).wall_ms == 0,
{
}

/// Stamps keep the order of the readings they were made from, whatever the wall
/// clock says, for as long as the readings can be counted.
pub proof fn law_stamps_keep_order(
    earlier: Option<u128>,
    later: Option<u128>,
    a: u128,
    b: u128,
)
    requires
        a <= b <= u64::MAX,
    ensures
        stamped(earlier, a).mono_ns <= stamped(later, b).mono_ns,
{
}

/// A stamp is the two readings themselves for as long as they can be counted,
/// the wall clock's in milliseconds and the monotonic one's in nanoseconds.
pub proof fn law_stamps_are_the_readings(wall_ms: Option<u128>, mono_ns: u128)
    ensures
        wall_ms is None ==> stamped(wall_ms, mono_ns).wall_ms == 0,
        wall_ms matches Some(ms) && ms <= i64::MAX ==> stamped(wall_ms, mono_ns).wall_ms
            == wall_ms->Some_0,
        mono_ns <= u64::MAX ==> stamped(wall_ms, mono_ns).mono_ns == mono_ns,
        stamped(wall_ms, mono_ns).mono_ns == mono_ns % 0x1_0000_0000_0000_0000,
        wall_ms matches Some(ms) ==> stamped(wall_ms, mono_ns).wall_ms as u64 == ms
            % 0x1_0000_0000_0000_0000,
{
    if let Some(ms) = wall_ms {
        assert((ms as i64) as u64 == ms % 0x1_0000_0000_0000_0000) by (bit_vector);
    }
    assert(mono_ns as u64 == mono_ns % 0x1_0000_0000_0000_0000) by (bit_vector);
}

/// A clock reads whole milliseconds since the epoch, and nanoseconds since its
/// own base.
pub proof fn law_clocks_read_milliseconds_and_nanoseconds(
    clock: SystemClock,
    wall: std::time::SystemTime,
    mono: std::time::Instant,
)
    ensures
        nanos_in(span_since(clock.base(), mono)) <= u64::MAX ==> clock.reads(wall, mono).mono_ns
            == nanos_in(span_since(clock.base(), mono)),
        epoch_span(wall) is Some && nanos_in(epoch_span(wall)->Some_0) <= u64::MAX ==> {
            let ms = clock.reads(wall, mono).wall_ms;
            ms * 1_000_000 <= nanos_in(epoch_span(wall)->Some_0) < (ms + 1) * 1_000_000
        },
{
}

} // verus!
