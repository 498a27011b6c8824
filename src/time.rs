use vstd::prelude::*;
use crate::SAMPLE_RATE;

verus! {

/// A position in musical time, counted in ticks.
#[derive(Clone, Copy, Debug, PartialEq, Eq)]
pub struct TimeStamp {
    pub ticks: u64,
}

impl TimeStamp {
    pub fn new(ticks: u64) -> (r: TimeStamp)
        ensures
            r.ticks == ticks,
    {
        TimeStamp { ticks }
    }
}

/// Why a time could not be resolved or a tempo map not be built.
#[derive(Clone, Copy, Debug, PartialEq, Eq)]
pub enum TimeError {
    /// Zero ticks per beat or a zero tempo.
    Configuration,
    /// A position whose sample index does not fit in 64 bits.
    TooLate,
    /// A timecode-based (non-metrical) timing.
    Unsupported,
    /// Bytes that are not a standard MIDI file.
    Malformed,
}

/// The tempo map: ticks per beat, time signature, and the tempo as the
/// length of a beat in microseconds.
#[derive(Clone, Copy, Debug, PartialEq, Eq)]
pub struct TimeManager {
    pub ticks_per_beat: u16,
    pub beats_per_bar: u16,
    pub beat_value: u16,
    pub micros_per_beat: u32,
}

/// The tempo before any tempo event: 120 beats per minute.
pub const DEFAULT_MICROS_PER_BEAT: u32 = 500_000;

pub const DEFAULT_TICKS_PER_BEAT: u16 = 480;

/// Converts a duration in microseconds into whole samples (rounded down).
pub open spec fn micros_to_samples_spec(us: int) -> int {
    us * SAMPLE_RATE / 1_000_000
}

/// Whole samples (rounded down) that `ticks` take at the given tempo.
pub open spec fn ticks_to_samples(ticks: int, ticks_per_beat: int, micros_per_beat: int) -> int {
    ticks * micros_per_beat * SAMPLE_RATE / (ticks_per_beat * 1_000_000)
}

/// The whole number of samples (rounded down) in a duration of `us`
/// microseconds.
pub fn seconds_to_samples(us: u64) -> (r: u64)
    ensures
        r == micros_to_samples_spec(us as int),
{
    let p: u128 = us as u128 * 44100u128;
    let q: u128 = p / 1_000_000u128;
    assert(q <= u64::MAX) by (nonlinear_arith)
        requires
            p == us as u128 * 44100u128,
            q == p / 1_000_000u128,
            us <= u64::MAX,
    ;
    q as u64
}

impl TimeManager {
    /// The tempo map in force before any tempo information is known.
    pub open spec fn new_spec() -> TimeManager {
        initial_time_manager(DEFAULT_TICKS_PER_BEAT)
    }

    pub fn new() -> (r: TimeManager)
        ensures
            r == TimeManager::new_spec(),
    {
        TimeManager {
            ticks_per_beat: DEFAULT_TICKS_PER_BEAT,
            beats_per_bar: 4,
            beat_value: 4,
            micros_per_beat: DEFAULT_MICROS_PER_BEAT,
        }
    }

    /// The absolute sample index of `time` under this tempo map.
    pub fn sample_index(&self, time: TimeStamp) -> (r: Result<u64, TimeError>)
        ensures
            (self.ticks_per_beat == 0 || self.micros_per_beat == 0) <==> r == Err::<
                u64,
                TimeError,
            >(TimeError::Configuration),
            self.ticks_per_beat > 0 && self.micros_per_beat > 0 ==> {
                let n = ticks_to_samples(
                    time.ticks as int,
                    self.ticks_per_beat as int,
                    self.micros_per_beat as int,
                );
                &&& n <= u64::MAX ==> r == Ok::<u64, TimeError>(n as u64)
                &&& n > u64::MAX ==> r == Err::<u64, TimeError>(TimeError::TooLate)
            },
    {
        if self.ticks_per_beat == 0 || self.micros_per_beat == 0 {
            return Err(TimeError::Configuration);
        }
        let t: u128 = time.ticks as u128;
        let m: u128 = self.micros_per_beat as u128;
        assert(t * m <= 0xffff_ffff_ffff_ffff_ffff_ffffu128) by (nonlinear_arith)
            requires
                t <= u64::MAX,
                m <= u32::MAX,
        ;
        assert(t * m * 44100 <= u128::MAX) by (nonlinear_arith)
            requires
                t * m <= 0xffff_ffff_ffff_ffff_ffff_ffffu128,
        ;
        let num: u128 = t * m * SAMPLE_RATE as u128;
        let den: u128 = self.ticks_per_beat as u128 * 1_000_000u128;
        let q: u128 = num / den;
        if q > u64::MAX as u128 {
            Err(TimeError::TooLate)
        } else {
            Ok(q as u64)
        }
    }
}

/// Resolution of musical time is monotonic: a later tick never maps to an
/// earlier sample under one tempo map.
pub proof fn lemma_sample_index_monotonic(tm: TimeManager, t1: TimeStamp, t2: TimeStamp)
    requires
        tm.ticks_per_beat > 0,
        tm.micros_per_beat > 0,
        t1.ticks <= t2.ticks,
    ensures
        ticks_to_samples(t1.ticks as int, tm.ticks_per_beat as int, tm.micros_per_beat as int)
            <= ticks_to_samples(t2.ticks as int, tm.ticks_per_beat as int, tm.micros_per_beat as int),
{
    let a = t1.ticks as int;
    let b = t2.ticks as int;
    let m = tm.micros_per_beat as int * SAMPLE_RATE;
    let d = tm.ticks_per_beat as int * 1_000_000;
    assert(a * tm.micros_per_beat as int * SAMPLE_RATE <= b * tm.micros_per_beat as int * SAMPLE_RATE)
        by (nonlinear_arith)
        requires
            a <= b,
            tm.micros_per_beat > 0,
    ;
    vstd::arithmetic::div_mod::lemma_div_is_ordered(
        a * tm.micros_per_beat as int * SAMPLE_RATE,
        b * tm.micros_per_beat as int * SAMPLE_RATE,
        d,
    );
}

/// How a tempo map counts time.
#[derive(Clone, Copy, Debug, PartialEq, Eq)]
pub enum Timing {
    /// Ticks per beat.
    Metrical(u16),
    /// Frames per second and ticks per frame; not supported.
    Timecode,
}

/// The events of a tempo map that matter to the time manager.
#[derive(Clone, Copy, Debug, PartialEq, Eq)]
pub enum MetaEvent {
    /// A tempo, as microseconds per beat.
    Tempo(u32),
    /// Beats per bar and beat value.
    TimeSignature(u8, u8),
    Other,
}

pub open spec fn apply_meta(tm: TimeManager, e: MetaEvent) -> TimeManager {
    match e {
        MetaEvent::Tempo(us) => TimeManager { micros_per_beat: us, ..tm },
        MetaEvent::TimeSignature(num, den) => TimeManager {
            beats_per_bar: num as u16,
            beat_value: den as u16,
            ..tm
        },
        MetaEvent::Other => tm,
    }
}

/// The time manager after the events of `s`, in order: the last tempo and
/// time signature win.
pub open spec fn fold_meta(tm: TimeManager, s: Seq<MetaEvent>) -> TimeManager
    decreases s.len(),
{
    if s.len() == 0 {
        tm
    } else {
        apply_meta(fold_meta(tm, s.drop_last()), s.last())
    }
}

pub open spec fn initial_time_manager(ticks_per_beat: u16) -> TimeManager {
    TimeManager {
        ticks_per_beat,
        beats_per_bar: 4,
        beat_value: 4,
        micros_per_beat: DEFAULT_MICROS_PER_BEAT,
    }
}

/// Builds the tempo map from the timing of a file and its meta events.
pub fn time_manager_from_meta(timing: Timing, events: &Vec<MetaEvent>) -> (r: Result<
    TimeManager,
    TimeError,
>)
    ensures
        match timing {
            Timing::Metrical(tpb) => r == Ok::<TimeManager, TimeError>(
                fold_meta(initial_time_manager(tpb), events@),
            ),
            Timing::Timecode => r == Err::<TimeManager, TimeError>(TimeError::Unsupported),
        },
{
    let tpb = match timing {
        Timing::Metrical(t) => t,
        Timing::Timecode => return Err(TimeError::Unsupported),
    };
    let mut tm = TimeManager {
        ticks_per_beat: tpb,
        beats_per_bar: 4,
        beat_value: 4,
        micros_per_beat: DEFAULT_MICROS_PER_BEAT,
    };
    let mut i: usize = 0;
    while i < events.len()
        invariant
            i <= events@.len(),
            tm == fold_meta(initial_time_manager(tpb), events@.take(i as int)),
        decreases events@.len() - i,
    {
        match events[i] {
            MetaEvent::Tempo(us) => {
                tm.micros_per_beat = us;
            },
            MetaEvent::TimeSignature(num, den) => {
                tm.beats_per_bar = num as u16;
                tm.beat_value = den as u16;
            },
            MetaEvent::Other => {},
        }
        assert(events@.take(i + 1).drop_last() =~= events@.take(i as int));
        i = i + 1;
    }
    assert(events@.take(i as int) =~= events@);
    Ok(tm)
}

} // verus!
