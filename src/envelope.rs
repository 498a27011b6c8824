use vstd::prelude::*;
use vstd::arithmetic::div_mod::{
    lemma_div_by_multiple,
    lemma_div_is_ordered,
    lemma_div_pos_is_pos,
};
use crate::control::{Control, ControlError, ControlErrorKind, CtrlValue};
use crate::time::{micros_to_samples_spec, seconds_to_samples, TimeManager, TimeStamp};
use crate::UNIT;

verus! {

/// Range of the attack, decay and release times, in microseconds.
pub const TIME_MIN: i64 = 0;

pub const TIME_MAX: i64 = 25_000_000;

/// Range of the sustain half-life, in microseconds.
pub const HALF_LIFE_MIN: i64 = 10_000;

pub const HALF_LIFE_MAX: i64 = 10_000_000;

/// `x * n / d` lies between 0 and `x` when `n <= d`.
pub proof fn lemma_fraction_bounded(x: int, n: int, d: int)
    requires
        0 <= x,
        0 <= n <= d,
        0 < d,
    ensures
        0 <= x * n / d <= x,
{
    assert(0 <= x * n <= x * d) by (nonlinear_arith)
        requires
            0 <= x,
            0 <= n <= d,
    ;
    lemma_div_is_ordered(x * n, x * d, d);
    lemma_div_by_multiple(x, d);
    lemma_div_pos_is_pos(x * n, d);
}

/// Sample `i` of a linear ramp from 0 up to (not reaching) `UNIT` over `a` samples.
pub open spec fn attack_at(i: int, a: int) -> int {
    i * UNIT / a
}

/// Sample `i` of a linear ramp from `UNIT` down towards `s` over `d` samples.
pub open spec fn decay_at(i: int, d: int, s: int) -> int {
    s + (UNIT - s) * (d - i) / d
}

/// Sample `i` of a linear ramp from `last` down towards 0 over `r` samples.
pub open spec fn release_at(i: int, r: int, last: int) -> int {
    last * (r - i) / r
}

/// One in the fixed-point format of the sustain decay (2^40).
pub const Q_ONE: u128 = 1_099_511_627_776;

/// One half in the same format.
pub const Q_HALF: u128 = 549_755_813_888;

/// `f / Q_ONE` to the power `n`, in the same format, each product rounded down.
pub open spec fn pow_q(f: int, n: nat) -> int
    decreases n,
{
    if n == 0 {
        Q_ONE as int
    } else {
        pow_q(f, (n - 1) as nat) * f / Q_ONE as int
    }
}

/// Bisection between `lo` and `hi` for the smallest factor whose power `h`
/// reaches one half.
pub open spec fn factor_search(lo: int, hi: int, h: nat) -> int
    decreases hi - lo,
{
    if hi - lo <= 1 {
        hi
    } else {
        let mid = (lo + hi) / 2;
        if pow_q(mid, h) >= Q_HALF {
            factor_search(lo, mid, h)
        } else {
            factor_search(mid, hi, h)
        }
    }
}

/// The per-sample decay factor for a half-life of `h` samples: about
/// `Q_ONE * 0.5^(1/h)`, the smallest factor whose `h`-th power reaches one half.
pub open spec fn half_life_factor(h: int) -> int {
    factor_search(0, Q_ONE as int, h as nat)
}

/// The sustain level `i` samples in, in units of `UNIT / Q_ONE`: `s`
/// multiplied by `f / Q_ONE` once per sample, rounded down each time.
pub open spec fn exp_level(s: int, f: int, i: nat) -> int
    decreases i,
{
    if i == 0 {
        s * Q_ONE
    } else {
        exp_level(s, f, (i - 1) as nat) * f / Q_ONE as int
    }
}

/// Sample `i` of the sustain segment: flat at `s`, or decaying exponentially
/// with a half-life of `h` samples.
pub open spec fn sustain_at(i: int, s: int, h: Option<int>) -> int {
    match h {
        Some(h) => exp_level(s, half_life_factor(h), i as nat) / Q_ONE as int,
        None => s,
    }
}

/// Sample `i` of the attack and decay phases.
pub open spec fn head_at(i: int, a: int, d: int, s: int) -> int {
    if i < a {
        attack_at(i, a)
    } else {
        decay_at(i - a, d, s)
    }
}

/// Length of the sustain segment: what is left of `target` after attack and decay.
pub open spec fn sustain_len(a: int, d: int, target: int) -> int {
    if a + d < target {
        target - a - d
    } else {
        0
    }
}

/// The level the release starts from: the last sample emitted before it, or
/// the sustain level where nothing was.
pub open spec fn last_level(a: int, d: int, s: int, h: Option<int>, c: int) -> int {
    if c > 0 {
        sustain_at(c - 1, s, h)
    } else if a + d > 0 {
        head_at(a + d - 1, a, d, s)
    } else {
        s
    }
}

/// Sample `i` of the envelope with phase lengths `a`, `d`, `r` (in samples),
/// sustain level `s`, optional half-life `h` (in samples), and the sustain
/// segment ending at `target` samples from the start.
pub open spec fn envelope_at(
    i: int,
    a: int,
    d: int,
    s: int,
    h: Option<int>,
    r: int,
    target: int,
) -> int {
    let c = sustain_len(a, d, target);
    if i < a + d {
        head_at(i, a, d, s)
    } else if i < a + d + c {
        sustain_at(i - a - d, s, h)
    } else {
        release_at(i - a - d - c, r, last_level(a, d, s, h, c))
    }
}

pub open spec fn envelope_len(a: int, d: int, r: int, target: int) -> int {
    a + d + sustain_len(a, d, target) + r
}

fn attack_value(i: u64, a: u64) -> (r: i64)
    requires
        i < a,
        a <= 2_000_000,
    ensures
        r == attack_at(i as int, a as int),
        0 <= r <= UNIT,
{
    proof {
        lemma_fraction_bounded(UNIT as int, i as int, a as int);
        assert(i * UNIT == UNIT * i) by (nonlinear_arith);
    }
    let v: u64 = i * 1_000_000 / a;
    v as i64
}

fn decay_value(i: u64, d: u64, s: i64) -> (r: i64)
    requires
        i < d,
        d <= 2_000_000,
        0 <= s <= UNIT,
    ensures
        r == decay_at(i as int, d as int, s as int),
        s <= r <= UNIT,
{
    proof {
        lemma_fraction_bounded((UNIT - s) as int, (d - i) as int, d as int);
    }
    assert((UNIT - s) as u64 * (d - i) <= 2_000_000_000_000u64) by (nonlinear_arith)
        requires
            0 <= UNIT - s <= 1_000_000,
            d - i <= 2_000_000,
    ;
    let v: u64 = (UNIT - s) as u64 * (d - i) / d;
    s + v as i64
}

fn release_value(i: u64, r: u64, last: i64) -> (v: i64)
    requires
        i < r,
        r <= 2_000_000,
        0 <= last <= UNIT,
    ensures
        v == release_at(i as int, r as int, last as int),
        0 <= v <= last,
{
    proof {
        lemma_fraction_bounded(last as int, (r - i) as int, r as int);
    }
    assert(last as u64 * (r - i) <= 2_000_000_000_000u64) by (nonlinear_arith)
        requires
            0 <= last <= 1_000_000,
            r - i <= 2_000_000,
    ;
    let v: u64 = last as u64 * (r - i) / r;
    v as i64
}

proof fn lemma_pow_q_bounded(f: int, n: nat)
    requires
        0 <= f <= Q_ONE,
    ensures
        0 <= pow_q(f, n) <= Q_ONE,
    decreases n,
{
    if n > 0 {
        lemma_pow_q_bounded(f, (n - 1) as nat);
        lemma_fraction_bounded(pow_q(f, (n - 1) as nat), f, Q_ONE as int);
    }
}

proof fn lemma_pow_q_ends(n: nat)
    ensures
        pow_q(Q_ONE as int, n) == Q_ONE,
        n > 0 ==> pow_q(0, n) == 0,
    decreases n,
{
    if n > 0 {
        lemma_pow_q_ends((n - 1) as nat);
        lemma_div_by_multiple(Q_ONE as int, Q_ONE as int);
    }
}

proof fn lemma_factor_search(lo: int, hi: int, h: nat)
    requires
        lo < hi,
        pow_q(lo, h) < Q_HALF,
        pow_q(hi, h) >= Q_HALF,
    ensures
        lo < factor_search(lo, hi, h) <= hi,
        pow_q(factor_search(lo, hi, h), h) >= Q_HALF,
        pow_q(factor_search(lo, hi, h) - 1, h) < Q_HALF,
    decreases hi - lo,
{
    if hi - lo > 1 {
        let mid = (lo + hi) / 2;
        if pow_q(mid, h) >= Q_HALF {
            lemma_factor_search(lo, mid, h);
        } else {
            lemma_factor_search(mid, hi, h);
        }
    }
}

/// The decay factor lies in `(0, Q_ONE]`, and its `h`-th power reaches one
/// half while that of the next smaller factor does not.
proof fn lemma_half_life_factor(h: int)
    requires
        h > 0,
    ensures
        0 < half_life_factor(h) <= Q_ONE,
        pow_q(half_life_factor(h), h as nat) >= Q_HALF,
        pow_q(half_life_factor(h) - 1, h as nat) < Q_HALF,
{
    lemma_pow_q_ends(h as nat);
    lemma_factor_search(0, Q_ONE as int, h as nat);
}

proof fn lemma_exp_level_bounded(s: int, f: int, i: nat)
    requires
        0 <= s,
        0 <= f <= Q_ONE,
    ensures
        0 <= exp_level(s, f, i) <= s * Q_ONE,
    decreases i,
{
    if i > 0 {
        lemma_exp_level_bounded(s, f, (i - 1) as nat);
        lemma_fraction_bounded(exp_level(s, f, (i - 1) as nat), f, Q_ONE as int);
    }
}

fn pow_q_exec(f: u128, n: u64) -> (r: u128)
    requires
        f <= Q_ONE,
    ensures
        r == pow_q(f as int, n as nat),
{
    let mut acc: u128 = Q_ONE;
    let mut i: u64 = 0;
    while i < n
        invariant
            f <= Q_ONE,
            i <= n,
            acc == pow_q(f as int, i as nat),
            acc <= Q_ONE,
        decreases n - i,
    {
        proof {
            lemma_fraction_bounded(acc as int, f as int, Q_ONE as int);
        }
        assert(acc * f <= Q_ONE * Q_ONE) by (nonlinear_arith)
            requires
                acc <= Q_ONE,
                f <= Q_ONE,
        ;
        acc = acc * f / Q_ONE;
        i = i + 1;
    }
    acc
}

/// The per-sample decay factor for a half-life of `h` samples, by bisection.
fn half_life_factor_exec(h: u64) -> (r: u128)
    requires
        h > 0,
    ensures
        r == half_life_factor(h as int),
        0 < r <= Q_ONE,
{
    proof {
        lemma_half_life_factor(h as int);
    }
    let mut lo: u128 = 0;
    let mut hi: u128 = Q_ONE;
    while hi - lo > 1
        invariant
            lo < hi <= Q_ONE,
            factor_search(lo as int, hi as int, h as nat) == half_life_factor(h as int),
        decreases hi - lo,
    {
        let mid: u128 = (lo + hi) / 2;
        if pow_q_exec(mid, h) >= Q_HALF {
            hi = mid;
        } else {
            lo = mid;
        }
    }
    hi
}

/// An attack/decay/sustain/release gain curve, with an optional exponential
/// decay of the sustain. Times are in microseconds, the sustain level in
/// units of `UNIT`.
#[derive(Debug)]
pub struct Envelope {
    attack: Control,
    decay: Control,
    sustain: Control,
    sus_half_life: Option<Control>,
    release: Control,
    time_manager: TimeManager,
}

/// The constant of a fixed control (0 for a sourced one).
pub open spec fn fixed_value(c: Control) -> int {
    match c.kind() {
        crate::control::CtrlValue::Fixed(v) => v as int,
        crate::control::CtrlValue::Sourced(_) => 0,
    }
}

pub open spec fn fixed_in(c: Control, lo: i64, hi: i64) -> bool {
    c.kind() is Fixed && c.lo() == lo && c.hi() == hi && c.wf()
}

impl Envelope {
    pub closed spec fn attack_ctrl(&self) -> Control {
        self.attack
    }

    pub closed spec fn decay_ctrl(&self) -> Control {
        self.decay
    }

    pub closed spec fn sustain_ctrl(&self) -> Control {
        self.sustain
    }

    pub closed spec fn half_life_ctrl(&self) -> Option<Control> {
        self.sus_half_life
    }

    pub closed spec fn release_ctrl(&self) -> Control {
        self.release
    }

    pub closed spec fn time_manager_spec(&self) -> TimeManager {
        self.time_manager
    }

    /// Every control is fixed and within its range.
    pub open spec fn wf(&self) -> bool {
        &&& fixed_in(self.attack_ctrl(), TIME_MIN, TIME_MAX)
        &&& fixed_in(self.decay_ctrl(), TIME_MIN, TIME_MAX)
        &&& fixed_in(self.sustain_ctrl(), 0, UNIT)
        &&& fixed_in(self.release_ctrl(), TIME_MIN, TIME_MAX)
        &&& self.half_life_ctrl() matches Some(c) ==> fixed_in(c, HALF_LIFE_MIN, HALF_LIFE_MAX)
    }

    pub open spec fn attack_samples(&self) -> int {
        micros_to_samples_spec(fixed_value(self.attack_ctrl()))
    }

    pub open spec fn decay_samples(&self) -> int {
        micros_to_samples_spec(fixed_value(self.decay_ctrl()))
    }

    pub open spec fn release_samples(&self) -> int {
        micros_to_samples_spec(fixed_value(self.release_ctrl()))
    }

    pub open spec fn sustain_level(&self) -> int {
        fixed_value(self.sustain_ctrl())
    }

    pub open spec fn half_life_samples(&self) -> Option<int> {
        match self.half_life_ctrl() {
            Some(c) => Some(micros_to_samples_spec(fixed_value(c))),
            None => None,
        }
    }

    /// Sample `i` of the envelope whose sustain segment ends at `target`.
    pub open spec fn value_at(&self, i: int, target: int) -> int {
        envelope_at(
            i,
            self.attack_samples(),
            self.decay_samples(),
            self.sustain_level(),
            self.half_life_samples(),
            self.release_samples(),
            target,
        )
    }

    pub open spec fn len_for(&self, target: int) -> int {
        envelope_len(self.attack_samples(), self.decay_samples(), self.release_samples(), target)
    }

    /// Whether a span of `samples` is longer than attack, decay and release together.
    pub open spec fn span_is_long(&self, samples: int) -> bool {
        samples > self.attack_samples() + self.decay_samples() + self.release_samples()
    }

    /// The sustain target of a short span: `samples - release`, never below 0.
    pub open spec fn span_target(&self, samples: int) -> int {
        if samples >= self.release_samples() {
            samples - self.release_samples()
        } else {
            0
        }
    }

    /// What `get_vec` gives for a span of `samples`: a long span is the
    /// envelope with an empty sustain padded with zeros; a short one is the
    /// envelope whose sustain ends at `span_target`.
    pub open spec fn span(&self, samples: int) -> Seq<i64> {
        if self.span_is_long(samples) {
            Seq::new(
                samples as nat,
                |i: int|
                    if i < self.len_for(0) {
                        self.value_at(i, 0) as i64
                    } else {
                        0i64
                    },
            )
        } else {
            let t = self.span_target(samples);
            Seq::new(self.len_for(t) as nat, |i: int| self.value_at(i, t) as i64)
        }
    }
}


proof fn lemma_samples_in_time_range(v: int)
    requires
        0 <= v <= TIME_MAX,
    ensures
        0 <= micros_to_samples_spec(v) <= 1_102_500,
{
    lemma_div_is_ordered(v * 44100, 1_102_500int * 1_000_000, 1_000_000);
    lemma_div_by_multiple(1_102_500, 1_000_000);
    lemma_div_pos_is_pos(v * 44100, 1_000_000);
}

proof fn lemma_samples_in_half_life_range(v: int)
    requires
        HALF_LIFE_MIN <= v <= HALF_LIFE_MAX,
    ensures
        441 <= micros_to_samples_spec(v) <= 441_000,
{
    lemma_div_is_ordered(v * 44100, 441_000int * 1_000_000, 1_000_000);
    lemma_div_is_ordered(441int * 1_000_000, v * 44100, 1_000_000);
    lemma_div_by_multiple(441_000, 1_000_000);
    lemma_div_by_multiple(441, 1_000_000);
}

/// The constant of a fixed control.
fn fixed_of(c: &Control, time: TimeStamp) -> (r: i64)
    requires
        c.kind() is Fixed,
    ensures
        r == fixed_value(*c),
{
    match c.get_value(time) {
        Some(v) => v,
        None => 0,
    }
}

/// The first out-of-range parameter of an envelope, in the order attack,
/// decay, sustain, half-life, release.
pub open spec fn first_range_error(
    attack: i64,
    decay: i64,
    sustain: i64,
    sus_half_life: Option<i64>,
    release: i64,
) -> Option<ControlErrorKind> {
    if !(TIME_MIN <= attack <= TIME_MAX) {
        Some(ControlErrorKind::OutOfRange { value: attack, min: TIME_MIN, max: TIME_MAX })
    } else if !(TIME_MIN <= decay <= TIME_MAX) {
        Some(ControlErrorKind::OutOfRange { value: decay, min: TIME_MIN, max: TIME_MAX })
    } else if !(0 <= sustain <= UNIT) {
        Some(ControlErrorKind::OutOfRange { value: sustain, min: 0, max: UNIT })
    } else if sus_half_life matches Some(h) && !(HALF_LIFE_MIN <= h <= HALF_LIFE_MAX) {
        Some(
            ControlErrorKind::OutOfRange {
                value: sus_half_life->Some_0,
                min: HALF_LIFE_MIN,
                max: HALF_LIFE_MAX,
            },
        )
    } else if !(TIME_MIN <= release <= TIME_MAX) {
        Some(ControlErrorKind::OutOfRange { value: release, min: TIME_MIN, max: TIME_MAX })
    } else {
        None
    }
}

/// The field that `first_range_error` reports.
pub open spec fn first_range_field(
    attack: i64,
    decay: i64,
    sustain: i64,
    sus_half_life: Option<i64>,
    release: i64,
) -> &'static str {
    if !(TIME_MIN <= attack <= TIME_MAX) {
        "attack"
    } else if !(TIME_MIN <= decay <= TIME_MAX) {
        "decay"
    } else if !(0 <= sustain <= UNIT) {
        "sustain"
    } else if sus_half_life matches Some(h) && !(HALF_LIFE_MIN <= h <= HALF_LIFE_MAX) {
        "sustain half life"
    } else {
        "release"
    }
}

impl Envelope {
    /// An envelope with the given times (microseconds) and sustain level
    /// (units of `UNIT`); fails on the first parameter out of its range.
    pub fn new(attack: i64, decay: i64, sustain: i64, sus_half_life: Option<i64>, release: i64) -> (r:
        Result<Envelope, ControlError>)
        ensures
            r is Ok <==> first_range_error(attack, decay, sustain, sus_half_life, release) is None,
            r matches Err(e) ==> Some(e.kind) == first_range_error(
                attack,
                decay,
                sustain,
                sus_half_life,
                release,
            ) && e.origin@ == seq![
                ("Envelope", first_range_field(attack, decay, sustain, sus_half_life, release)),
            ],
            r matches Ok(env) ==> {
                &&& env.wf()
                &&& env.attack_ctrl().is_fixed_at(attack)
                &&& env.decay_ctrl().is_fixed_at(decay)
                &&& env.sustain_ctrl().is_fixed_at(sustain)
                &&& env.release_ctrl().is_fixed_at(release)
                &&& match sus_half_life {
                    Some(h) => env.half_life_ctrl() matches Some(c) && c.is_fixed_at(h),
                    None => env.half_life_ctrl() is None,
                }
                &&& env.time_manager_spec() == TimeManager::new_spec()
            },
    {
        let attack = match Control::from_val_in_range(attack, (TIME_MIN, TIME_MAX)) {
            Ok(c) => c,
            Err(e) => return Err(e.set_origin("Envelope", "attack")),
        };
        let decay = match Control::from_val_in_range(decay, (TIME_MIN, TIME_MAX)) {
            Ok(c) => c,
            Err(e) => return Err(e.set_origin("Envelope", "decay")),
        };
        let sustain = match Control::from_val_in_unit(sustain) {
            Ok(c) => c,
            Err(e) => return Err(e.set_origin("Envelope", "sustain")),
        };
        let sus_half_life = match sus_half_life {
            Some(h) => match Control::from_val_in_range(h, (HALF_LIFE_MIN, HALF_LIFE_MAX)) {
                Ok(c) => Some(c),
                Err(e) => return Err(e.set_origin("Envelope", "sustain half life")),
            },
            None => None,
        };
        let release = match Control::from_val_in_range(release, (TIME_MIN, TIME_MAX)) {
            Ok(c) => c,
            Err(e) => return Err(e.set_origin("Envelope", "release")),
        };
        Ok(Envelope { attack, decay, sustain, sus_half_life, release, time_manager: TimeManager::new() })
    }

    /// A decay from full level to silence.
    pub fn new_decay(decay: i64) -> (r: Result<Envelope, ControlError>)
        ensures
            r is Ok <==> first_range_error(0, decay, 0, None, 0) is None,
            r matches Ok(env) ==> env.wf() && env.attack_ctrl().is_fixed_at(0)
                && env.decay_ctrl().is_fixed_at(decay) && env.sustain_ctrl().is_fixed_at(0)
                && env.half_life_ctrl() is None && env.release_ctrl().is_fixed_at(0),
            r matches Err(e) ==> Some(e.kind) == first_range_error(0, decay, 0, None, 0)
                && e.origin@ == seq![("Envelope", first_range_field(0, decay, 0, None, 0))],
    {
        Self::new(0, decay, 0, None, 0)
    }

    /// An attack followed by a decay to silence.
    pub fn new_ad(attack: i64, decay: i64) -> (r: Result<Envelope, ControlError>)
        ensures
            r is Ok <==> first_range_error(attack, decay, 0, None, 0) is None,
            r matches Ok(env) ==> env.wf() && env.attack_ctrl().is_fixed_at(attack)
                && env.decay_ctrl().is_fixed_at(decay) && env.sustain_ctrl().is_fixed_at(0)
                && env.half_life_ctrl() is None && env.release_ctrl().is_fixed_at(0),
            r matches Err(e) ==> Some(e.kind) == first_range_error(attack, decay, 0, None, 0)
                && e.origin@ == seq![("Envelope", first_range_field(attack, decay, 0, None, 0))],
    {
        Self::new(attack, decay, 0, None, 0)
    }

    /// A full envelope with a flat sustain.
    pub fn new_adsr(attack: i64, decay: i64, sustain: i64, release: i64) -> (r: Result<
        Envelope,
        ControlError,
    >)
        ensures
            r is Ok <==> first_range_error(attack, decay, sustain, None, release) is None,
            r matches Ok(env) ==> env.wf() && env.attack_ctrl().is_fixed_at(attack)
                && env.decay_ctrl().is_fixed_at(decay) && env.sustain_ctrl().is_fixed_at(sustain)
                && env.half_life_ctrl() is None && env.release_ctrl().is_fixed_at(release),
            r matches Err(e) ==> Some(e.kind) == first_range_error(
                attack,
                decay,
                sustain,
                None,
                release,
            ) && e.origin@ == seq![
                ("Envelope", first_range_field(attack, decay, sustain, None, release)),
            ],
    {
        Self::new(attack, decay, sustain, None, release)
    }

    /// A full envelope whose sustain halves every `sus_half_life` microseconds.
    pub fn new_adsr_with_half_life(
        attack: i64,
        decay: i64,
        sustain: i64,
        sus_half_life: i64,
        release: i64,
    ) -> (r: Result<Envelope, ControlError>)
        ensures
            r is Ok <==> first_range_error(attack, decay, sustain, Some(sus_half_life), release)
                is None,
            r matches Ok(env) ==> env.wf() && env.attack_ctrl().is_fixed_at(attack)
                && env.decay_ctrl().is_fixed_at(decay) && env.sustain_ctrl().is_fixed_at(sustain)
                && env.release_ctrl().is_fixed_at(release) && (env.half_life_ctrl() matches Some(
                c) && c.is_fixed_at(sus_half_life)),
            r matches Err(e) ==> Some(e.kind) == first_range_error(
                attack,
                decay,
                sustain,
                Some(sus_half_life),
                release,
            ) && e.origin@ == seq![
                ("Envelope", first_range_field(attack, decay, sustain, Some(sus_half_life), release)),
            ],
    {
        Self::new(attack, decay, sustain, Some(sus_half_life), release)
    }
}


impl Envelope {
    /// The envelope: attack and decay ramps, a sustain segment reaching
    /// `sus_samples` samples from the start (empty where attack and decay
    /// already reach it), then a release from the last emitted level to 0.
    /// Where nothing precedes the release (no attack, no decay and a zero
    /// `sus_samples`), the release starts from the sustain level.
    pub fn get_envelope(&self, sus_samples: usize, time: TimeStamp) -> (out: Vec<i64>)
        requires
            self.wf(),
            sus_samples as int + 4_000_000 <= usize::MAX,
        ensures
            out@.len() == self.len_for(sus_samples as int),
            forall|i: int|
                0 <= i < out@.len() ==> #[trigger] out@[i] == self.value_at(i, sus_samples as int),
    {
        proof {
            lemma_samples_in_time_range(fixed_value(self.attack));
            lemma_samples_in_time_range(fixed_value(self.decay));
            lemma_samples_in_time_range(fixed_value(self.release));
        }
        let a: u64 = seconds_to_samples(fixed_of(&self.attack, time) as u64);
        let d: u64 = seconds_to_samples(fixed_of(&self.decay, time) as u64);
        let s: i64 = fixed_of(&self.sustain, time);
        let r: u64 = seconds_to_samples(fixed_of(&self.release, time) as u64);
        let ghost target = sus_samples as int;
        let ghost hs = self.half_life_samples();
        let mut out: Vec<i64> = Vec::new();
        let mut i: u64 = 0;
        while i < a
            invariant
                i <= a <= 1_102_500,
                out@.len() == i,
                a == self.attack_samples(),
                d == self.decay_samples(),
                forall|j: int| 0 <= j < out@.len() ==> #[trigger] out@[j] == self.value_at(j, target),
                forall|j: int| 0 <= j < out@.len() ==> 0 <= #[trigger] out@[j] <= UNIT,
            decreases a - i,
        {
            out.push(attack_value(i, a));
            i = i + 1;
        }
        let mut i: u64 = 0;
        while i < d
            invariant
                i <= d <= 1_102_500,
                a <= 1_102_500,
                out@.len() == a + i,
                a == self.attack_samples(),
                d == self.decay_samples(),
                s == self.sustain_level(),
                0 <= s <= UNIT,
                forall|j: int| 0 <= j < out@.len() ==> #[trigger] out@[j] == self.value_at(j, target),
                forall|j: int| 0 <= j < out@.len() ==> 0 <= #[trigger] out@[j] <= UNIT,
            decreases d - i,
        {
            out.push(decay_value(i, d, s));
            i = i + 1;
        }
        let ghost c = sustain_len(a as int, d as int, target);
        if out.len() < sus_samples {
            let count: usize = sus_samples - out.len();
            match &self.sus_half_life {
                Some(hl) => {
                    proof {
                        lemma_samples_in_half_life_range(fixed_value(*hl));
                    }
                    let h: u64 = seconds_to_samples(fixed_of(hl, time) as u64);
                    let f: u128 = half_life_factor_exec(h);
                    let ghost ff = f as int;
                    let mut level: u128 = s as u128 * Q_ONE;
                    let mut k: usize = 0;
                    while k < count
                        invariant
                            k <= count,
                            count == c,
                            c == sustain_len(a as int, d as int, target),
                            a + d + c == target,
                            out@.len() == a + d + k,
                            hs == Some(h as int),
                            hs == self.half_life_samples(),
                            441 <= h <= 441_000,
                            0 <= s <= UNIT,
                            s == self.sustain_level(),
                            a == self.attack_samples(),
                            d == self.decay_samples(),
                            ff == half_life_factor(h as int),
                            ff == f as int,
                            0 < f <= Q_ONE,
                            level == exp_level(s as int, ff, k as nat),
                            level <= s * Q_ONE,
                            forall|jj: int|
                                0 <= jj < out@.len() ==> #[trigger] out@[jj] == self.value_at(jj, target),
                            forall|jj: int| 0 <= jj < out@.len() ==> 0 <= #[trigger] out@[jj] <= UNIT,
                        decreases count - k,
                    {
                        proof {
                            lemma_fraction_bounded(level as int, ff, Q_ONE as int);
                        }
                        assert(level / Q_ONE <= s) by (nonlinear_arith)
                            requires
                                level <= s * Q_ONE,
                                0 <= s,
                        ;
                        let v: i64 = (level / Q_ONE) as i64;
                        out.push(v);
                        proof {
                            let kk = k as int;
                            assert(v == sustain_at(kk, s as int, hs));
                            assert(self.value_at(a + d + kk, target) == sustain_at(kk, s as int, hs));
                        }
                        assert(level * f <= 1_000_000 * Q_ONE * Q_ONE) by (nonlinear_arith)
                            requires
                                level <= s * Q_ONE,
                                s <= 1_000_000,
                                f <= Q_ONE,
                        ;
                        level = level * f / Q_ONE;
                        k = k + 1;
                    }
                },
                None => {
                    let mut k: usize = 0;
                    while k < count
                        invariant
                            k <= count,
                            count == c,
                            c == sustain_len(a as int, d as int, target),
                            a + d + c == target,
                            out@.len() == a + d + k,
                            hs is None,
                            hs == self.half_life_samples(),
                            0 <= s <= UNIT,
                            s == self.sustain_level(),
                            a == self.attack_samples(),
                            d == self.decay_samples(),
                            forall|jj: int|
                                0 <= jj < out@.len() ==> #[trigger] out@[jj] == self.value_at(jj, target),
                            forall|jj: int| 0 <= jj < out@.len() ==> 0 <= #[trigger] out@[jj] <= UNIT,
                        decreases count - k,
                    {
                        out.push(s);
                        assert(self.value_at(a + d + k, target) == s);
                        k = k + 1;
                    }
                },
            }
        }
        let last: i64 = if out.len() > 0 {
            out[out.len() - 1]
        } else {
            s
        };
        let ghost lvl = last_level(a as int, d as int, s as int, hs, c);
        proof {
            if out@.len() > 0 {
                assert(out@[out@.len() - 1] == self.value_at(out@.len() - 1, target));
            }
        }
        assert(last == lvl);
        let mut i: u64 = 0;
        while i < r
            invariant
                i <= r <= 1_102_500,
                out@.len() == a + d + c + i,
                a == self.attack_samples(),
                d == self.decay_samples(),
                r == self.release_samples(),
                s == self.sustain_level(),
                hs == self.half_life_samples(),
                c == sustain_len(a as int, d as int, target),
                last == last_level(a as int, d as int, s as int, hs, c),
                0 <= last <= UNIT,
                forall|j: int| 0 <= j < out@.len() ==> #[trigger] out@[j] == self.value_at(j, target),
                forall|j: int| 0 <= j < out@.len() ==> 0 <= #[trigger] out@[j] <= UNIT,
            decreases r - i,
        {
            out.push(release_value(i, r, last));
            i = i + 1;
        }
        out
    }
}


impl Envelope {
    /// Replaces all five controls by those of `other`, keeping the time manager.
    pub fn set(&mut self, other: Envelope)
        ensures
            final(self).attack_ctrl() == other.attack_ctrl(),
            final(self).decay_ctrl() == other.decay_ctrl(),
            final(self).sustain_ctrl() == other.sustain_ctrl(),
            final(self).half_life_ctrl() == other.half_life_ctrl(),
            final(self).release_ctrl() == other.release_ctrl(),
            final(self).time_manager_spec() == old(self).time_manager_spec(),
            other.wf() ==> final(self).wf(),
    {
        self.attack = other.attack;
        self.decay = other.decay;
        self.sustain = other.sustain;
        self.sus_half_life = other.sus_half_life;
        self.release = other.release;
    }

    pub fn set_time_manager(&mut self, time_manager: TimeManager)
        ensures
            final(self).time_manager_spec() == time_manager,
            final(self).attack_ctrl() == old(self).attack_ctrl(),
            final(self).decay_ctrl() == old(self).decay_ctrl(),
            final(self).sustain_ctrl() == old(self).sustain_ctrl(),
            final(self).half_life_ctrl() == old(self).half_life_ctrl(),
            final(self).release_ctrl() == old(self).release_ctrl(),
    {
        self.time_manager = time_manager;
    }

    /// `samples` gain values from `start` on. Where the span exceeds attack,
    /// decay and release together, the envelope with an empty sustain padded
    /// with zeros; otherwise the envelope whose sustain ends `release` samples
    /// before the end of the span. A span shorter than the release gets a
    /// zero sustain target and the whole release, so the result is then
    /// longer than `samples`.
    pub fn get_vec(&self, start: TimeStamp, samples: usize) -> (out: Vec<i64>)
        requires
            self.wf(),
            samples as int + 4_000_000 <= usize::MAX,
        ensures
            out@ == self.span(samples as int),
    {
        proof {
            lemma_samples_in_time_range(fixed_value(self.attack));
            lemma_samples_in_time_range(fixed_value(self.decay));
            lemma_samples_in_time_range(fixed_value(self.release));
        }
        let a: u64 = seconds_to_samples(fixed_of(&self.attack, start) as u64);
        let d: u64 = seconds_to_samples(fixed_of(&self.decay, start) as u64);
        let r: u64 = seconds_to_samples(fixed_of(&self.release, start) as u64);
        if samples as u64 > a + d + r {
            let mut v = self.get_envelope(0, start);
            let ghost head = v@;
            assert(head.len() == a + d + r);
            while v.len() < samples
                invariant
                    head.len() <= v@.len() <= samples,
                    forall|i: int| 0 <= i < head.len() ==> #[trigger] v@[i] == head[i],
                    forall|i: int| head.len() <= i < v@.len() ==> #[trigger] v@[i] == 0,
                decreases samples - v@.len(),
            {
                v.push(0);
            }
            assert(v@ =~= self.span(samples as int));
            v
        } else {
            let target: usize = if samples as u64 >= r {
                samples - r as usize
            } else {
                0
            };
            let v = self.get_envelope(target, start);
            assert(v@ =~= self.span(samples as int));
            v
        }
    }
}

impl Default for Envelope {
    /// Attack 0.1 s, decay 0.15 s, sustain at 0.8, release 0.6 s.
    fn default() -> (r: Envelope)
        ensures
            r.wf(),
            r.attack_ctrl().is_fixed_at(100_000),
            r.decay_ctrl().is_fixed_at(150_000),
            r.sustain_ctrl().is_fixed_at(800_000),
            r.half_life_ctrl() is None,
            r.release_ctrl().is_fixed_at(600_000),
    {
        Self::new_adsr(100_000, 150_000, 800_000, 600_000).unwrap()
    }
}

/// The attack rises, the decay falls towards the sustain level without
/// passing it, and the release falls towards zero: each phase is monotonic,
/// sample by sample.
pub proof fn lemma_envelope_monotonic(env: Envelope, target: int, i: int)
    requires
        env.wf(),
        0 <= target,
        0 <= i,
    ensures
        ({
            let a = env.attack_samples();
            let d = env.decay_samples();
            let c = sustain_len(a, d, target);
            let r = env.release_samples();
            &&& i + 1 < a ==> env.value_at(i, target) <= env.value_at(i + 1, target)
            &&& a <= i && i + 1 < a + d ==> env.value_at(i + 1, target) <= env.value_at(i, target)
            &&& a <= i < a + d ==> env.sustain_level() <= env.value_at(i, target)
            &&& a + d + c <= i && i + 1 < a + d + c + r ==> env.value_at(i + 1, target)
                <= env.value_at(i, target)
            &&& a + d + c <= i < a + d + c + r ==> 0 <= env.value_at(i, target)
        }),
{
    let a = env.attack_samples();
    let d = env.decay_samples();
    let c = sustain_len(a, d, target);
    let r = env.release_samples();
    let s = env.sustain_level();
    lemma_samples_in_time_range(fixed_value(env.attack_ctrl()));
    lemma_samples_in_time_range(fixed_value(env.decay_ctrl()));
    lemma_samples_in_time_range(fixed_value(env.release_ctrl()));
    if i + 1 < a {
        lemma_div_is_ordered(i * UNIT, (i + 1) * UNIT, a);
    }
    if a <= i && i + 1 < a + d {
        let j = i - a;
        assert((UNIT - s) * (d - j - 1) <= (UNIT - s) * (d - j)) by (nonlinear_arith)
            requires
                0 <= UNIT - s,
                d - j - 1 <= d - j,
        ;
        lemma_div_is_ordered((UNIT - s) * (d - j - 1), (UNIT - s) * (d - j), d);
    }
    if a <= i < a + d {
        lemma_fraction_bounded(UNIT - s, d - (i - a), d);
    }
    if a + d + c <= i < a + d + c + r {
        let lvl = last_level(a, d, s, env.half_life_samples(), c);
        lemma_last_level_bounded(env, target);
        let j = i - a - d - c;
        lemma_fraction_bounded(lvl, r - j, r);
        if i + 1 < a + d + c + r {
            assert(lvl * (r - j - 1) <= lvl * (r - j)) by (nonlinear_arith)
                requires
                    0 <= lvl,
            ;
            lemma_div_is_ordered(lvl * (r - j - 1), lvl * (r - j), r);
        }
    }
}

proof fn lemma_last_level_bounded(env: Envelope, target: int)
    requires
        env.wf(),
        0 <= target,
    ensures
        0 <= last_level(
            env.attack_samples(),
            env.decay_samples(),
            env.sustain_level(),
            env.half_life_samples(),
            sustain_len(env.attack_samples(), env.decay_samples(), target),
        ) <= UNIT,
{
    let a = env.attack_samples();
    let d = env.decay_samples();
    let c = sustain_len(a, d, target);
    let s = env.sustain_level();
    lemma_samples_in_time_range(fixed_value(env.attack_ctrl()));
    lemma_samples_in_time_range(fixed_value(env.decay_ctrl()));
    if c > 0 {
        if let Some(hc) = env.half_life_ctrl() {
            lemma_samples_in_half_life_range(fixed_value(hc));
            let h = micros_to_samples_spec(fixed_value(hc));
            lemma_half_life_factor(h);
            lemma_exp_level_bounded(s, half_life_factor(h), (c - 1) as nat);
            let e = exp_level(s, half_life_factor(h), (c - 1) as nat);
            lemma_div_pos_is_pos(e, Q_ONE as int);
            assert(e / Q_ONE as int <= s) by (nonlinear_arith)
                requires
                    0 <= e <= s * Q_ONE,
                    0 <= s,
            ;
        }
    } else if a + d > 0 {
        if a + d - 1 < a {
            lemma_fraction_bounded(UNIT as int, a + d - 1, a);
            assert((a + d - 1) * UNIT == UNIT * (a + d - 1)) by (nonlinear_arith);
        } else {
            lemma_fraction_bounded(UNIT - s, d - (a + d - 1 - a), d);
        }
    }
}

/// With no attack and no decay and a flat sustain at level `L`, the envelope
/// for `target` samples has `target + release` samples: `L` for the first
/// `target`, then a linear release from `L` to zero.
pub proof fn lemma_flat_sustain_shape(env: Envelope, target: int)
    requires
        env.wf(),
        0 <= target,
        env.attack_samples() == 0,
        env.decay_samples() == 0,
        env.half_life_samples() is None,
    ensures
        env.len_for(target) == target + env.release_samples(),
        forall|i: int| 0 <= i < target ==> #[trigger] env.value_at(i, target) == env.sustain_level(),
        forall|j: int|
            0 <= j < env.release_samples() ==> #[trigger] env.value_at(target + j, target)
                == release_at(j, env.release_samples(), env.sustain_level()),
{
}

/// With a sustain half-life of `h` samples, the sustain decays by one
/// factor per sample, and that factor raised to the power `h` is one half:
/// it is the smallest fixed-point factor whose `h`-th power reaches one half.
/// The decaying sustain never rises.
pub proof fn lemma_sustain_half_life(env: Envelope, i: nat)
    requires
        env.wf(),
        env.half_life_samples() is Some,
    ensures
        ({
            let h = env.half_life_samples()->Some_0;
            let f = half_life_factor(h);
            let s = env.sustain_level();
            &&& 0 < f <= Q_ONE
            &&& pow_q(f, h as nat) >= Q_HALF
            &&& pow_q(f - 1, h as nat) < Q_HALF
            &&& exp_level(s, f, i + 1) == exp_level(s, f, i) * f / Q_ONE as int
            &&& sustain_at(i + 1 as int, s, Some(h)) <= sustain_at(i as int, s, Some(h))
        }),
{
    let h = env.half_life_samples()->Some_0;
    lemma_samples_in_half_life_range(fixed_value(env.half_life_ctrl()->Some_0));
    lemma_half_life_factor(h);
    let f = half_life_factor(h);
    let s = env.sustain_level();
    lemma_exp_level_bounded(s, f, i);
    lemma_fraction_bounded(exp_level(s, f, i), f, Q_ONE as int);
    lemma_div_is_ordered(exp_level(s, f, i + 1), exp_level(s, f, i), Q_ONE as int);
}

} // verus!
