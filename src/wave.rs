use vstd::prelude::*;
use vstd::arithmetic::div_mod::{lemma_div_by_multiple, lemma_div_is_ordered, lemma_div_pos_is_pos};
use crate::UNIT;

verus! {

/// The level that `peak_normalize` gives the loudest sample: 0.9 of full scale.
pub const NORM_PEAK: i64 = 900_000;

/// `n / d` rounded towards zero, as integer division in Rust does.
pub open spec fn trunc_div(n: int, d: int) -> int {
    if n >= 0 {
        n / d
    } else {
        -((-n) / d)
    }
}

/// `x * m / d`, rounded towards zero.
pub open spec fn mul_div(x: int, m: int, d: int) -> int {
    trunc_div(x * m, d)
}

pub open spec fn abs(x: int) -> int {
    if x < 0 {
        -x
    } else {
        x
    }
}

pub open spec fn fits_i64(x: int) -> bool {
    i64::MIN <= x <= i64::MAX
}

/// The largest absolute value in `s` (0 when empty).
pub open spec fn max_abs(s: Seq<i64>) -> int
    decreases s.len(),
{
    if s.len() == 0 {
        0
    } else {
        let m = max_abs(s.drop_last());
        let l = abs(s.last() as int);
        if l > m {
            l
        } else {
            m
        }
    }
}

/// The largest absolute value over both channels.
pub open spec fn peak(a: Seq<i64>, b: Seq<i64>) -> int {
    if max_abs(a) >= max_abs(b) {
        max_abs(a)
    } else {
        max_abs(b)
    }
}

/// Sample `k` of `a` after `b` is mixed in at offset `index`.
pub open spec fn mixed_at(a: Seq<i64>, b: Seq<i64>, index: int, k: int) -> int {
    let base = if k < a.len() {
        a[k] as int
    } else {
        0
    };
    if index <= k < index + b.len() {
        base + b[k - index]
    } else {
        base
    }
}

pub open spec fn mixed_len(a: Seq<i64>, b: Seq<i64>, index: int) -> int {
    if a.len() >= index + b.len() {
        a.len() as int
    } else {
        index + b.len()
    }
}

/// Mixing `b` into `a` at `index` keeps every sample within 64 bits.
pub open spec fn mix_fits(a: Seq<i64>, b: Seq<i64>, index: int) -> bool {
    forall|k: int| 0 <= k < mixed_len(a, b, index) ==> fits_i64(#[trigger] mixed_at(a, b, index, k))
}

/// Every sample of `a`, scaled by `UNIT`-based factor `f`, fits in 64 bits.
pub open spec fn scale_fits(a: Seq<i64>, f: int) -> bool {
    forall|k: int| 0 <= k < a.len() ==> fits_i64(#[trigger] mul_div(a[k] as int, f, UNIT as int))
}

pub open spec fn scale_by_fits(a: Seq<i64>, v: Seq<i64>) -> bool {
    forall|k: int|
        0 <= k < a.len() ==> fits_i64(#[trigger] mul_div(a[k] as int, v[k] as int, UNIT as int))
}

/// `x * m / d` rounded towards zero; the result must fit.
fn mul_div_exec(x: i64, m: i64, d: i64) -> (r: i64)
    requires
        d > 0,
        fits_i64(mul_div(x as int, m as int, d as int)),
    ensures
        r == mul_div(x as int, m as int, d as int),
{
    assert(-0x4000_0000_0000_0000_0000_0000_0000_0000 <= (x as int) * (m as int)
        <= 0x4000_0000_0000_0000_0000_0000_0000_0000) by (nonlinear_arith)
        requires
            -0x8000_0000_0000_0000 <= x <= 0x7fff_ffff_ffff_ffff,
            -0x8000_0000_0000_0000 <= m <= 0x7fff_ffff_ffff_ffff,
    ;
    let p: i128 = x as i128 * m as i128;
    if p >= 0 {
        let q: u128 = p as u128 / d as u128;
        q as i64
    } else {
        let q: u128 = (-p) as u128 / d as u128;
        -(q as i128) as i64
    }
}

/// A two-channel buffer of samples in units of `UNIT` (full scale is `UNIT`).
#[derive(Clone, Debug)]
pub struct Stereo {
    right: Vec<i64>,
    left: Vec<i64>,
}

impl Stereo {
    pub closed spec fn right(&self) -> Seq<i64> {
        self.right@
    }

    pub closed spec fn left(&self) -> Seq<i64> {
        self.left@
    }

    /// Both channels have the same length.
    pub open spec fn wf(&self) -> bool {
        self.right().len() == self.left().len()
    }

    pub open spec fn len_spec(&self) -> int {
        self.right().len() as int
    }

    pub fn new() -> (r: Stereo)
        ensures
            r.wf(),
            r.right() == Seq::<i64>::empty(),
            r.left() == Seq::<i64>::empty(),
    {
        Stereo { right: Vec::new(), left: Vec::new() }
    }

    pub fn with_capacity(capacity: usize) -> (r: Stereo)
        ensures
            r.wf(),
            r.right() == Seq::<i64>::empty(),
            r.left() == Seq::<i64>::empty(),
    {
        Stereo { right: Vec::with_capacity(capacity), left: Vec::with_capacity(capacity) }
    }

    fn filled(length: usize, value: i64) -> (r: Stereo)
        ensures
            r.wf(),
            r.right() == Seq::new(length as nat, |i: int| value),
            r.left() == Seq::new(length as nat, |i: int| value),
    {
        let mut right: Vec<i64> = Vec::with_capacity(length);
        let mut left: Vec<i64> = Vec::with_capacity(length);
        let mut i: usize = 0;
        while i < length
            invariant
                i <= length,
                right@ == Seq::new(i as nat, |j: int| value),
                left@ == Seq::new(i as nat, |j: int| value),
            decreases length - i,
        {
            right.push(value);
            left.push(value);
            i = i + 1;
            assert(right@ =~= Seq::new(i as nat, |j: int| value));
            assert(left@ =~= Seq::new(i as nat, |j: int| value));
        }
        Stereo { right, left }
    }

    /// `length` samples of silence on each channel.
    pub fn zeros(length: usize) -> (r: Stereo)
        ensures
            r.wf(),
            r.right() == Seq::new(length as nat, |i: int| 0i64),
            r.left() == Seq::new(length as nat, |i: int| 0i64),
    {
        Self::filled(length, 0)
    }

    /// `length` samples at full scale on each channel.
    pub fn ones(length: usize) -> (r: Stereo)
        ensures
            r.wf(),
            r.right() == Seq::new(length as nat, |i: int| UNIT),
            r.left() == Seq::new(length as nat, |i: int| UNIT),
    {
        Self::filled(length, UNIT)
    }

    /// The same samples on both channels.
    pub fn from_vec(vec: Vec<i64>) -> (r: Stereo)
        ensures
            r.wf(),
            r.right() == vec@,
            r.left() == vec@,
    {
        let mut right: Vec<i64> = Vec::with_capacity(vec.len());
        let mut i: usize = 0;
        while i < vec.len()
            invariant
                i <= vec@.len(),
                right@ == vec@.take(i as int),
            decreases vec@.len() - i,
        {
            right.push(vec[i]);
            i = i + 1;
            assert(right@ =~= vec@.take(i as int));
        }
        assert(vec@.take(i as int) =~= vec@);
        Stereo { right, left: vec }
    }

    /// The right channel.
    pub fn get_right(&self) -> (r: &Vec<i64>)
        ensures
            r@ == self.right(),
    {
        &self.right
    }

    /// The left channel.
    pub fn get_left(&self) -> (r: &Vec<i64>)
        ensures
            r@ == self.left(),
    {
        &self.left
    }

    pub fn len(&self) -> (r: usize)
        requires
            self.wf(),
        ensures
            r == self.right().len(),
            r == self.left().len(),
    {
        self.right.len()
    }

    pub fn is_empty(&self) -> (r: bool)
        requires
            self.wf(),
        ensures
            r == (self.right().len() == 0),
    {
        self.right.len() == 0
    }

    pub fn clear(&mut self)
        ensures
            final(self).wf(),
            final(self).right() == Seq::<i64>::empty(),
            final(self).left() == Seq::<i64>::empty(),
    {
        self.right.clear();
        self.left.clear();
    }
}

fn resize_channel(v: &mut Vec<i64>, new_len: usize, value: i64)
    ensures
        final(v)@.len() == new_len,
        forall|i: int|
            0 <= i < new_len ==> #[trigger] final(v)@[i] == (if i < old(v)@.len() {
                old(v)@[i]
            } else {
                value
            }),
{
    if new_len <= v.len() {
        v.truncate(new_len);
    } else {
        while v.len() < new_len
            invariant
                old(v)@.len() <= v@.len() <= new_len,
                forall|i: int| 0 <= i < old(v)@.len() ==> #[trigger] v@[i] == old(v)@[i],
                forall|i: int| old(v)@.len() <= i < v@.len() ==> #[trigger] v@[i] == value,
            decreases new_len - v@.len(),
        {
            v.push(value);
        }
    }
}

/// Adds `b` into `a` from offset `index`, growing `a` with zeros as needed.
fn mix_channel(a: &mut Vec<i64>, b: &Vec<i64>, index: usize)
    requires
        index + b@.len() <= usize::MAX,
        mix_fits(old(a)@, b@, index as int),
    ensures
        final(a)@.len() == mixed_len(old(a)@, b@, index as int),
        forall|k: int|
            0 <= k < final(a)@.len() ==> #[trigger] final(a)@[k] == mixed_at(
                old(a)@,
                b@,
                index as int,
                k,
            ),
{
    let ghost a0 = a@;
    if a.len() < index + b.len() {
        resize_channel(a, index + b.len(), 0);
    }
    let mut i: usize = 0;
    while i < b.len()
        invariant
            index + b@.len() <= usize::MAX,
            mix_fits(a0, b@, index as int),
            a@.len() == mixed_len(a0, b@, index as int),
            i <= b@.len(),
            forall|k: int|
                0 <= k < a@.len() ==> #[trigger] a@[k] == (if index <= k < index + i {
                    mixed_at(a0, b@, index as int, k)
                } else if k < a0.len() {
                    a0[k] as int
                } else {
                    0
                }),
        decreases b@.len() - i,
    {
        let k: usize = i + index;
        assert(fits_i64(mixed_at(a0, b@, index as int, k as int)));
        let v: i64 = a[k] + b[i];
        a.set(k, v);
        i = i + 1;
    }
}

fn scale_channel(a: &mut Vec<i64>, f: i64)
    requires
        scale_fits(old(a)@, f as int),
    ensures
        final(a)@.len() == old(a)@.len(),
        forall|k: int|
            0 <= k < final(a)@.len() ==> #[trigger] final(a)@[k] == mul_div(
                old(a)@[k] as int,
                f as int,
                UNIT as int,
            ),
{
    let ghost a0 = a@;
    let mut i: usize = 0;
    while i < a.len()
        invariant
            scale_fits(a0, f as int),
            a@.len() == a0.len(),
            i <= a@.len(),
            forall|k: int|
                0 <= k < a@.len() ==> #[trigger] a@[k] == (if k < i {
                    mul_div(a0[k] as int, f as int, UNIT as int)
                } else {
                    a0[k] as int
                }),
        decreases a@.len() - i,
    {
        let v = mul_div_exec(a[i], f, UNIT);
        a.set(i, v);
        i = i + 1;
    }
}

fn scale_channel_by(a: &mut Vec<i64>, g: &Vec<i64>)
    requires
        g@.len() == old(a)@.len(),
        scale_by_fits(old(a)@, g@),
    ensures
        final(a)@.len() == old(a)@.len(),
        forall|k: int|
            0 <= k < final(a)@.len() ==> #[trigger] final(a)@[k] == mul_div(
                old(a)@[k] as int,
                g@[k] as int,
                UNIT as int,
            ),
{
    let ghost a0 = a@;
    let mut i: usize = 0;
    while i < a.len()
        invariant
            scale_by_fits(a0, g@),
            g@.len() == a0.len(),
            a@.len() == a0.len(),
            i <= a@.len(),
            forall|k: int|
                0 <= k < a@.len() ==> #[trigger] a@[k] == (if k < i {
                    mul_div(a0[k] as int, g@[k] as int, UNIT as int)
                } else {
                    a0[k] as int
                }),
        decreases a@.len() - i,
    {
        let v = mul_div_exec(a[i], g[i], UNIT);
        a.set(i, v);
        i = i + 1;
    }
}


/// The largest absolute value in `v`.
fn max_abs_exec(v: &Vec<i64>) -> (r: u64)
    ensures
        r == max_abs(v@),
{
    let mut m: u64 = 0;
    let mut i: usize = 0;
    while i < v.len()
        invariant
            i <= v@.len(),
            m == max_abs(v@.take(i as int)),
            m <= 0x8000_0000_0000_0000u64,
        decreases v@.len() - i,
    {
        let x: i64 = v[i];
        let l: u64 = if x < 0 {
            (-(x as i128)) as u64
        } else {
            x as u64
        };
        assert(v@.take(i + 1).drop_last() =~= v@.take(i as int));
        if l > m {
            m = l;
        }
        i = i + 1;
    }
    assert(v@.take(i as int) =~= v@);
    m
}

impl Stereo {
    /// Grows or truncates both channels to `new_len`, filling new samples with `value`.
    pub fn resize(&mut self, new_len: usize, value: i64)
        ensures
            final(self).wf(),
            final(self).right().len() == new_len,
            forall|i: int|
                0 <= i < new_len ==> #[trigger] final(self).right()[i] == (if i < old(
                    self,
                ).right().len() {
                    old(self).right()[i]
                } else {
                    value
                }),
            forall|i: int|
                0 <= i < new_len ==> #[trigger] final(self).left()[i] == (if i < old(
                    self,
                ).left().len() {
                    old(self).left()[i]
                } else {
                    value
                }),
    {
        resize_channel(&mut self.right, new_len, value);
        resize_channel(&mut self.left, new_len, value);
    }

    /// Adds `other` into `self` from sample `index` on, on each channel,
    /// growing `self` with silence where `other` reaches past its end.
    pub fn add(&mut self, other: &Stereo, index: usize)
        requires
            old(self).wf(),
            other.wf(),
            index + other.right().len() <= usize::MAX,
            mix_fits(old(self).right(), other.right(), index as int),
            mix_fits(old(self).left(), other.left(), index as int),
        ensures
            final(self).wf(),
            final(self).right().len() == mixed_len(old(self).right(), other.right(), index as int),
            forall|k: int|
                0 <= k < final(self).right().len() ==> #[trigger] final(self).right()[k]
                    == mixed_at(old(self).right(), other.right(), index as int, k),
            forall|k: int|
                0 <= k < final(self).left().len() ==> #[trigger] final(self).left()[k]
                    == mixed_at(old(self).left(), other.left(), index as int, k),
    {
        mix_channel(&mut self.right, &other.right, index);
        mix_channel(&mut self.left, &other.left, index);
    }

    /// `add`, taking `other` by value.
    pub fn add_consuming(&mut self, other: Stereo, index: usize)
        requires
            old(self).wf(),
            other.wf(),
            index + other.right().len() <= usize::MAX,
            mix_fits(old(self).right(), other.right(), index as int),
            mix_fits(old(self).left(), other.left(), index as int),
        ensures
            final(self).wf(),
            final(self).right().len() == mixed_len(old(self).right(), other.right(), index as int),
            forall|k: int|
                0 <= k < final(self).right().len() ==> #[trigger] final(self).right()[k]
                    == mixed_at(old(self).right(), other.right(), index as int, k),
            forall|k: int|
                0 <= k < final(self).left().len() ==> #[trigger] final(self).left()[k]
                    == mixed_at(old(self).left(), other.left(), index as int, k),
    {
        self.add(&other, index)
    }

    /// Multiplies every sample by `value / UNIT`, rounding towards zero.
    pub fn scale(&mut self, value: i64)
        requires
            old(self).wf(),
            scale_fits(old(self).right(), value as int),
            scale_fits(old(self).left(), value as int),
        ensures
            final(self).wf(),
            final(self).right().len() == old(self).right().len(),
            forall|k: int|
                0 <= k < final(self).right().len() ==> #[trigger] final(self).right()[k] == mul_div(
                    old(self).right()[k] as int,
                    value as int,
                    UNIT as int,
                ),
            forall|k: int|
                0 <= k < final(self).left().len() ==> #[trigger] final(self).left()[k] == mul_div(
                    old(self).left()[k] as int,
                    value as int,
                    UNIT as int,
                ),
    {
        scale_channel(&mut self.right, value);
        scale_channel(&mut self.left, value);
    }

    /// Multiplies sample `k` of each channel by `vec[k] / UNIT`, rounding towards zero.
    pub fn scale_by_vec(&mut self, vec: Vec<i64>)
        requires
            old(self).wf(),
            vec@.len() == old(self).right().len(),
            scale_by_fits(old(self).right(), vec@),
            scale_by_fits(old(self).left(), vec@),
        ensures
            final(self).wf(),
            final(self).right().len() == old(self).right().len(),
            forall|k: int|
                0 <= k < final(self).right().len() ==> #[trigger] final(self).right()[k] == mul_div(
                    old(self).right()[k] as int,
                    vec@[k] as int,
                    UNIT as int,
                ),
            forall|k: int|
                0 <= k < final(self).left().len() ==> #[trigger] final(self).left()[k] == mul_div(
                    old(self).left()[k] as int,
                    vec@[k] as int,
                    UNIT as int,
                ),
    {
        scale_channel_by(&mut self.right, &vec);
        scale_channel_by(&mut self.left, &vec);
    }
}


/// Each sample of `s` scaled by `NORM_PEAK / p`, rounding towards zero.
pub open spec fn normalized(s: Seq<i64>, p: int) -> Seq<i64> {
    Seq::new(s.len(), |k: int| mul_div(s[k] as int, NORM_PEAK as int, p) as i64)
}

proof fn lemma_max_abs_bounds(s: Seq<i64>)
    ensures
        0 <= max_abs(s),
        forall|k: int| 0 <= k < s.len() ==> abs(#[trigger] s[k] as int) <= max_abs(s),
        max_abs(s) <= 0x8000_0000_0000_0000,
    decreases s.len(),
{
    if s.len() > 0 {
        lemma_max_abs_bounds(s.drop_last());
        assert forall|k: int| 0 <= k < s.len() implies abs(#[trigger] s[k] as int) <= max_abs(s) by {
            if k < s.len() - 1 {
                assert(s[k] == s.drop_last()[k]);
            }
        }
    }
}

proof fn lemma_max_abs_le(s: Seq<i64>, b: int)
    requires
        0 <= b,
        forall|k: int| 0 <= k < s.len() ==> abs(#[trigger] s[k] as int) <= b,
    ensures
        max_abs(s) <= b,
    decreases s.len(),
{
    if s.len() > 0 {
        let t = s.drop_last();
        assert forall|k: int| 0 <= k < t.len() implies abs(#[trigger] t[k] as int) <= b by {
            assert(t[k] == s[k]);
        }
        lemma_max_abs_le(t, b);
    }
}

proof fn lemma_max_abs_witness(s: Seq<i64>) -> (k: int)
    requires
        max_abs(s) > 0,
    ensures
        0 <= k < s.len(),
        abs(s[k] as int) == max_abs(s),
    decreases s.len(),
{
    let t = s.drop_last();
    if abs(s.last() as int) > max_abs(t) {
        (s.len() - 1) as int
    } else {
        let j = lemma_max_abs_witness(t);
        assert(s[j] == t[j]);
        j
    }
}

/// `|x * t / p|` is `|x| * t / p`, at most `t` when `|x| <= p`.
proof fn lemma_mul_div_abs(x: int, t: int, p: int)
    requires
        abs(x) <= p,
        0 < p,
        0 <= t,
    ensures
        abs(mul_div(x, t, p)) == abs(x) * t / p,
        abs(x) * t / p <= t,
        abs(x) == p ==> abs(x) * t / p == t,
{
    assert(abs(x) * t <= p * t) by (nonlinear_arith)
        requires
            abs(x) <= p,
            0 <= t,
    ;
    assert(0 <= abs(x) * t) by (nonlinear_arith)
        requires
            0 <= abs(x),
            0 <= t,
    ;
    lemma_div_is_ordered(abs(x) * t, p * t, p);
    lemma_div_by_multiple(t, p);
    assert(p * t == t * p) by (nonlinear_arith);
    lemma_div_pos_is_pos(abs(x) * t, p);
    if x < 0 {
        assert(-(x * t) == (-x) * t) by (nonlinear_arith);
    }
}

/// Normalizing samples that already peak at `NORM_PEAK` keeps them.
proof fn lemma_normalized_at_peak_fixed(s: Seq<i64>)
    requires
        max_abs(s) <= NORM_PEAK,
    ensures
        normalized(s, NORM_PEAK as int) == s,
{
    lemma_max_abs_bounds(s);
    assert forall|k: int| 0 <= k < s.len() implies #[trigger] normalized(s, NORM_PEAK as int)[k]
        == s[k] by {
        let x = s[k] as int;
        let t = NORM_PEAK as int;
        if x >= 0 {
            lemma_div_by_multiple(x, t);
        } else {
            assert(-(x * t) == (-x) * t) by (nonlinear_arith);
            lemma_div_by_multiple(-x, t);
        }
    }
    assert(normalized(s, NORM_PEAK as int) =~= s);
}

proof fn lemma_normalized_bounded(s: Seq<i64>, p: int)
    requires
        max_abs(s) <= p,
        0 < p,
    ensures
        forall|k: int|
            0 <= k < s.len() ==> abs(#[trigger] normalized(s, p)[k] as int) == abs(s[k] as int)
                * NORM_PEAK / p,
        forall|k: int| 0 <= k < s.len() ==> abs(#[trigger] normalized(s, p)[k] as int) <= NORM_PEAK,
        max_abs(normalized(s, p)) <= NORM_PEAK,
{
    lemma_max_abs_bounds(s);
    assert forall|k: int| 0 <= k < s.len() implies abs(#[trigger] normalized(s, p)[k] as int) == abs(
        s[k] as int,
    ) * NORM_PEAK / p && abs(normalized(s, p)[k] as int) <= NORM_PEAK by {
        lemma_mul_div_abs(s[k] as int, NORM_PEAK as int, p);
    }
    lemma_max_abs_le(normalized(s, p), NORM_PEAK as int);
}

/// Peak normalization is idempotent: after one pass the loudest sample over
/// both channels sits at `NORM_PEAK`, and a second pass changes nothing.
pub proof fn lemma_peak_normalize_idempotent(a: Seq<i64>, b: Seq<i64>)
    requires
        peak(a, b) > 0,
    ensures
        peak(normalized(a, peak(a, b)), normalized(b, peak(a, b))) == NORM_PEAK,
        normalized(normalized(a, peak(a, b)), NORM_PEAK as int) == normalized(a, peak(a, b)),
        normalized(normalized(b, peak(a, b)), NORM_PEAK as int) == normalized(b, peak(a, b)),
{
    let p = peak(a, b);
    lemma_normalized_bounded(a, p);
    lemma_normalized_bounded(b, p);
    let a1 = normalized(a, p);
    let b1 = normalized(b, p);
    lemma_max_abs_bounds(a1);
    lemma_max_abs_bounds(b1);
    if max_abs(a) >= max_abs(b) {
        let k = lemma_max_abs_witness(a);
        lemma_mul_div_abs(a[k] as int, NORM_PEAK as int, p);
        assert(abs(a1[k] as int) == NORM_PEAK);
    } else {
        let k = lemma_max_abs_witness(b);
        lemma_mul_div_abs(b[k] as int, NORM_PEAK as int, p);
        assert(abs(b1[k] as int) == NORM_PEAK);
    }
    lemma_normalized_at_peak_fixed(a1);
    lemma_normalized_at_peak_fixed(b1);
}

fn normalize_channel(a: &mut Vec<i64>, p: u64)
    requires
        0 < p,
        max_abs(old(a)@) <= p,
    ensures
        final(a)@ == normalized(old(a)@, p as int),
{
    let ghost a0 = a@;
    proof {
        lemma_normalized_bounded(a0, p as int);
        lemma_max_abs_bounds(a0);
    }
    let mut i: usize = 0;
    while i < a.len()
        invariant
            0 < p,
            max_abs(a0) <= p,
            a@.len() == a0.len(),
            i <= a@.len(),
            forall|k: int| 0 <= k < a0.len() ==> abs(#[trigger] a0[k] as int) <= p,
            forall|k: int|
                0 <= k < a0.len() ==> abs(#[trigger] normalized(a0, p as int)[k] as int) <= NORM_PEAK,
            forall|k: int|
                0 <= k < a@.len() ==> #[trigger] a@[k] == (if k < i {
                    normalized(a0, p as int)[k]
                } else {
                    a0[k]
                }),
        decreases a@.len() - i,
    {
        let x: i64 = a[i];
        proof {
            lemma_mul_div_abs(x as int, NORM_PEAK as int, p as int);
        }
        let neg: bool = x < 0;
        let m: u128 = if neg {
            (-(x as i128)) as u128
        } else {
            x as u128
        };
        assert(m * 900_000 <= 0x8000_0000_0000_0000 * 900_000) by (nonlinear_arith)
            requires
                m <= 0x8000_0000_0000_0000u128,
        ;
        let q: u128 = m * 900_000 / p as u128;
        let v: i64 = if neg {
            -(q as i64)
        } else {
            q as i64
        };
        proof {
            if neg {
                assert(-(x * 900_000) == (-x) * 900_000) by (nonlinear_arith);
            }
        }
        a.set(i, v);
        i = i + 1;
    }
    assert(a@ =~= normalized(a0, p as int));
}

impl Stereo {
    /// Scales both channels by one factor so that the loudest sample over
    /// both becomes `NORM_PEAK`; silence is left as it is.
    pub fn peak_normalize(&mut self)
        requires
            old(self).wf(),
        ensures
            final(self).wf(),
            peak(old(self).right(), old(self).left()) == 0 ==> final(self).right() == old(
                self,
            ).right() && final(self).left() == old(self).left(),
            peak(old(self).right(), old(self).left()) > 0 ==> final(self).right() == normalized(
                old(self).right(),
                peak(old(self).right(), old(self).left()),
            ) && final(self).left() == normalized(
                old(self).left(),
                peak(old(self).right(), old(self).left()),
            ),
    {
        let r: u64 = max_abs_exec(&self.right);
        let l: u64 = max_abs_exec(&self.left);
        let p: u64 = if r >= l {
            r
        } else {
            l
        };
        if p > 0 {
            normalize_channel(&mut self.right, p);
            normalize_channel(&mut self.left, p);
        }
    }
}

} // verus!
