use vstd::prelude::*;
use crate::envelope::Envelope;
use crate::time::TimeStamp;
use crate::UNIT;

verus! {

/// What a control resolves to: a constant, or the output of the
/// value-producing object registered under a numeric id.
#[derive(Clone, Copy, Debug, PartialEq, Eq)]
pub enum CtrlValue {
    Fixed(i64),
    Sourced(usize),
}

/// What went wrong in a control operation.
#[derive(Clone, Copy, Debug, PartialEq, Eq)]
pub enum ControlErrorKind {
    /// A value outside `[min, max]` was given.
    OutOfRange { value: i64, min: i64, max: i64 },
    /// A source id that the id map or the set of live sources lacks.
    Dangling { id: usize },
}

/// A failed control operation, with the chain of owners (structure, field)
/// that it passed through, innermost first.
#[derive(Clone, Debug)]
pub struct ControlError {
    pub kind: ControlErrorKind,
    pub origin: Vec<(&'static str, &'static str)>,
}

impl ControlError {
    pub fn new(kind: ControlErrorKind) -> (r: ControlError)
        ensures
            r.kind == kind,
            r.origin@.len() == 0,
    {
        ControlError { kind, origin: Vec::new() }
    }

    /// Records that the error passed through field `field` of `structure`.
    pub fn set_origin(self, structure: &'static str, field: &'static str) -> (r: ControlError)
        ensures
            r.kind == self.kind,
            r.origin@ == self.origin@.push((structure, field)),
    {
        let mut e = self;
        e.origin.push((structure, field));
        e
    }
}

/// The last pair with a given key wins.
pub open spec fn pairs_to_map(s: Seq<(usize, usize)>) -> Map<usize, usize>
    decreases s.len(),
{
    if s.len() == 0 {
        Map::empty()
    } else {
        pairs_to_map(s.drop_last()).insert(s.last().0, s.last().1)
    }
}

proof fn lemma_pairs_tail_free(s: Seq<(usize, usize)>, i: int, k: usize)
    requires
        0 <= i <= s.len(),
        forall|j: int| i <= j < s.len() ==> s[j].0 != k,
    ensures
        pairs_to_map(s).contains_key(k) == pairs_to_map(s.take(i)).contains_key(k),
        pairs_to_map(s).contains_key(k) ==> pairs_to_map(s)[k] == pairs_to_map(s.take(i))[k],
    decreases s.len(),
{
    if s.len() == i {
        assert(s.take(i) =~= s);
    } else {
        lemma_pairs_tail_free(s.drop_last(), i, k);
        assert(s.drop_last().take(i) =~= s.take(i));
    }
}

/// A mapping from the ids of a structure to the ids of its copy.
#[derive(Clone, Debug)]
pub struct IdMap {
    entries: Vec<(usize, usize)>,
}

impl View for IdMap {
    type V = Map<usize, usize>;

    closed spec fn view(&self) -> Map<usize, usize> {
        pairs_to_map(self.entries@)
    }
}

impl IdMap {
    pub fn new() -> (r: IdMap)
        ensures
            r@ == Map::<usize, usize>::empty(),
    {
        IdMap { entries: Vec::new() }
    }

    pub fn insert(&mut self, old_id: usize, new_id: usize)
        ensures
            final(self)@ == old(self)@.insert(old_id, new_id),
    {
        self.entries.push((old_id, new_id));
        assert(self.entries@.drop_last() =~= old(self).entries@);
    }

    pub fn get(&self, id: usize) -> (r: Option<usize>)
        ensures
            r == (if self@.contains_key(id) { Some(self@[id]) } else { None::<usize> }),
    {
        let mut i: usize = self.entries.len();
        while i > 0
            invariant
                i <= self.entries@.len(),
                forall|j: int| i <= j < self.entries@.len() ==> self.entries@[j].0 != id,
            decreases i,
        {
            if self.entries[i - 1].0 == id {
                let found = self.entries[i - 1].1;
                proof {
                    let s = self.entries@;
                    lemma_pairs_tail_free(s, i as int, id);
                    let t = s.take(i as int);
                    assert(t.drop_last() =~= s.take(i - 1));
                }
                return Some(found);
            }
            i = i - 1;
        }
        proof {
            lemma_pairs_tail_free(self.entries@, 0, id);
        }
        None
    }
}

/// A parameter kept within `[min, max]`: a constant, or a reference by id to
/// the object that produces it.
#[derive(Clone, Debug)]
pub struct Control {
    value: CtrlValue,
    min: i64,
    max: i64,
    id: Option<usize>,
}

impl Control {
    pub closed spec fn kind(&self) -> CtrlValue {
        self.value
    }

    pub closed spec fn lo(&self) -> i64 {
        self.min
    }

    pub closed spec fn hi(&self) -> i64 {
        self.max
    }

    pub closed spec fn ident(&self) -> Option<usize> {
        self.id
    }

    /// A fixed control holds a value within its bounds.
    pub open spec fn wf(&self) -> bool {
        match self.kind() {
            CtrlValue::Fixed(v) => self.lo() <= v <= self.hi(),
            CtrlValue::Sourced(_) => true,
        }
    }

    pub open spec fn is_fixed_at(&self, v: i64) -> bool {
        self.kind() == CtrlValue::Fixed(v)
    }

    /// What `get_value` gives: the constant of a fixed control.
    pub open spec fn value_spec(&self) -> Option<i64> {
        resolved(self.kind())
    }

    pub fn from_val_in_range(value: i64, range: (i64, i64)) -> (r: Result<Control, ControlError>)
        ensures
            r is Ok <==> range_checked(value, range) is Ok,
            r matches Ok(c) ==> Ok::<CtrlValue, ControlErrorKind>(c.kind()) == range_checked(
                value,
                range,
            ) && c.lo() == range.0 && c.hi() == range.1 && c.ident() is None && c.wf(),
            r matches Err(e) ==> Err::<CtrlValue, ControlErrorKind>(e.kind) == range_checked(
                value,
                range,
            ) && e.origin@.len() == 0,
    {
        if range.0 <= value && value <= range.1 {
            Ok(Control { value: CtrlValue::Fixed(value), min: range.0, max: range.1, id: None })
        } else {
            Err(
                ControlError::new(
                    ControlErrorKind::OutOfRange { value, min: range.0, max: range.1 },
                ),
            )
        }
    }

    /// A fixed control within `[0, UNIT]`.
    pub fn from_val_in_unit(value: i64) -> (r: Result<Control, ControlError>)
        ensures
            (0 <= value <= UNIT) <==> r is Ok,
            r matches Ok(c) ==> c.is_fixed_at(value) && c.lo() == 0 && c.hi() == UNIT
                && c.ident() is None && c.wf(),
            r matches Err(e) ==> e.kind == (ControlErrorKind::OutOfRange {
                value,
                min: 0,
                max: UNIT,
            }) && e.origin@.len() == 0,
    {
        Self::from_val_in_range(value, (0, UNIT))
    }

    /// A control driven by the source registered under `source`.
    pub fn from_source(source: usize, range: (i64, i64)) -> (r: Control)
        ensures
            r.kind() == CtrlValue::Sourced(source),
            r.lo() == range.0,
            r.hi() == range.1,
            r.ident() is None,
            r.wf(),
    {
        Control { value: CtrlValue::Sourced(source), min: range.0, max: range.1, id: None }
    }

    /// The constant of a fixed control; `None` for a sourced one, whose
    /// value only its source can give.
    pub fn get_value(&self, time: TimeStamp) -> (r: Option<i64>)
        ensures
            r == self.value_spec(),
    {
        match self.value {
            CtrlValue::Fixed(v) => Some(v),
            CtrlValue::Sourced(_) => None,
        }
    }

    /// `n` values from `time` on: for a fixed control, `n` copies of it.
    pub fn get_vec(&self, time: TimeStamp, n: usize) -> (r: Option<Vec<i64>>)
        ensures
            match self.kind() {
                CtrlValue::Fixed(v) => r matches Some(w) && w@ == Seq::new(n as nat, |i: int| v),
                CtrlValue::Sourced(_) => r is None,
            },
    {
        match self.value {
            CtrlValue::Fixed(v) => {
                let mut w: Vec<i64> = Vec::with_capacity(n);
                let mut i: usize = 0;
                while i < n
                    invariant
                        i <= n,
                        w@ == Seq::new(i as nat, |j: int| v),
                    decreases n - i,
                {
                    w.push(v);
                    i = i + 1;
                    assert(w@ =~= Seq::new(i as nat, |j: int| v));
                }
                Some(w)
            },
            CtrlValue::Sourced(_) => None,
        }
    }

    /// `n` values from `time` on, resolving a source through `sources`, the
    /// envelopes indexed by id: `None` where the id has no envelope.
    pub fn get_vec_in(&self, time: TimeStamp, n: usize, sources: &Vec<Envelope>) -> (r: Option<
        Vec<i64>,
    >)
        requires
            forall|i: int| 0 <= i < sources@.len() ==> (#[trigger] sources@[i]).wf(),
            n as int + 4_000_000 <= usize::MAX,
        ensures
            match self.kind() {
                CtrlValue::Fixed(v) => r matches Some(w) && w@ == Seq::new(n as nat, |i: int| v),
                CtrlValue::Sourced(k) => if k < sources@.len() {
                    r matches Some(w) && w@ == sources@[k as int].span(n as int)
                } else {
                    r is None
                },
            },
    {
        match self.value {
            CtrlValue::Fixed(_) => self.get_vec(time, n),
            CtrlValue::Sourced(k) => {
                if k < sources.len() {
                    Some(sources[k].get_vec(time, n))
                } else {
                    None
                }
            },
        }
    }

    /// Makes this a fixed control at `value`, when `value` lies within the bounds.
    pub fn set_value(&mut self, value: i64) -> (r: Result<(), ControlError>)
        ensures
            (old(self).lo() <= value <= old(self).hi()) <==> r is Ok,
            r is Ok ==> final(self).is_fixed_at(value),
            r is Err ==> final(self).kind() == old(self).kind(),
            r matches Err(e) ==> e.kind == (ControlErrorKind::OutOfRange {
                value,
                min: old(self).lo(),
                max: old(self).hi(),
            }),
            final(self).lo() == old(self).lo(),
            final(self).hi() == old(self).hi(),
            final(self).ident() == old(self).ident(),
            old(self).wf() ==> final(self).wf(),
    {
        if self.min <= value && value <= self.max {
            self.value = CtrlValue::Fixed(value);
            Ok(())
        } else {
            Err(
                ControlError::new(
                    ControlErrorKind::OutOfRange { value, min: self.min, max: self.max },
                ),
            )
        }
    }

    /// Gives the control the id `*next_id` if it has none yet, and advances the counter.
    pub fn set_ids(&mut self, next_id: &mut usize)
        requires
            *old(next_id) < usize::MAX,
        ensures
            old(self).ident() is Some ==> final(self).ident() == old(self).ident()
                && *final(next_id) == *old(next_id),
            old(self).ident() is None ==> final(self).ident() == Some(*old(next_id))
                && *final(next_id) == *old(next_id) + 1,
            final(self).kind() == old(self).kind(),
            final(self).lo() == old(self).lo(),
            final(self).hi() == old(self).hi(),
    {
        if self.id.is_none() {
            self.id = Some(*next_id);
            *next_id = *next_id + 1;
        }
    }

    /// The ids reachable through this control: its own, then its source's.
    pub fn get_ids(&self) -> (r: Vec<usize>)
        ensures
            r@ == own_ids(self.ident(), self.kind()),
    {
        let mut out: Vec<usize> = Vec::new();
        if let Some(i) = self.id {
            out.push(i);
        }
        if let CtrlValue::Sourced(s) = self.value {
            out.push(s);
        }
        out
    }

    /// Rewrites the source id through `id_map`; fails, leaving the control as
    /// it was, where the map lacks it.
    pub fn heal_sources(&mut self, id_map: &IdMap) -> (r: Result<(), ControlError>)
        ensures
            r is Ok <==> healed(old(self).kind(), id_map@) is Ok,
            r matches Err(e) ==> healed(old(self).kind(), id_map@) == Err::<CtrlValue, _>(e.kind)
                && e.origin@.len() == 0,
            old(self).kind() is Fixed ==> *final(self) == *old(self),
            healed(old(self).kind(), id_map@) matches Ok(k) ==> final(self).kind() == k,
            r is Err ==> final(self).kind() == old(self).kind(),
            final(self).lo() == old(self).lo(),
            final(self).hi() == old(self).hi(),
            final(self).ident() == old(self).ident(),
            old(self).wf() ==> final(self).wf(),
    {
        match self.value {
            CtrlValue::Fixed(_) => Ok(()),
            CtrlValue::Sourced(k) => match id_map.get(k) {
                Some(k2) => {
                    self.value = CtrlValue::Sourced(k2);
                    Ok(())
                },
                None => Err(ControlError::new(ControlErrorKind::Dangling { id: k })),
            },
        }
    }

    /// Succeeds when the control is fixed or its source is among `live`.
    pub fn test_sources(&self, live: &Vec<usize>) -> (r: Result<(), ControlError>)
        ensures
            r is Ok <==> source_live(self.kind(), live@),
            r matches Err(e) ==> self.kind() matches CtrlValue::Sourced(k) && e.kind == (
            ControlErrorKind::Dangling { id: k }) && e.origin@.len() == 0,
    {
        match self.value {
            CtrlValue::Fixed(_) => Ok(()),
            CtrlValue::Sourced(k) => {
                let mut i: usize = 0;
                while i < live.len()
                    invariant
                        i <= live@.len(),
                        self.value == CtrlValue::Sourced(k),
                        forall|j: int| 0 <= j < i ==> live@[j] != k,
                    decreases live@.len() - i,
                {
                    if live[i] == k {
                        assert(live@[i as int] == k);
                        assert(live@.contains(k));
                        return Ok(());
                    }
                    i = i + 1;
                }
                Err(ControlError::new(ControlErrorKind::Dangling { id: k }))
            },
        }
    }
}

/// What a control built from `value` with bounds `range` holds, or the error.
pub open spec fn range_checked(value: i64, range: (i64, i64)) -> Result<CtrlValue, ControlErrorKind> {
    if range.0 <= value <= range.1 {
        Ok(CtrlValue::Fixed(value))
    } else {
        Err(ControlErrorKind::OutOfRange { value, min: range.0, max: range.1 })
    }
}

/// The value a control gives by itself: the constant of a fixed one.
pub open spec fn resolved(kind: CtrlValue) -> Option<i64> {
    match kind {
        CtrlValue::Fixed(v) => Some(v),
        CtrlValue::Sourced(_) => None,
    }
}

/// A fixed value, or a source among `live`.
pub open spec fn source_live(kind: CtrlValue, live: Seq<usize>) -> bool {
    match kind {
        CtrlValue::Fixed(_) => true,
        CtrlValue::Sourced(k) => live.contains(k),
    }
}

pub open spec fn own_ids(id: Option<usize>, kind: CtrlValue) -> Seq<usize> {
    let a = match id {
        Some(i) => seq![i],
        None => Seq::empty(),
    };
    match kind {
        CtrlValue::Sourced(s) => a.push(s),
        CtrlValue::Fixed(_) => a,
    }
}

/// What healing through `m` makes of a control's value, or the error.
pub open spec fn healed(kind: CtrlValue, m: Map<usize, usize>) -> Result<
    CtrlValue,
    ControlErrorKind,
> {
    match kind {
        CtrlValue::Fixed(_) => Ok(kind),
        CtrlValue::Sourced(k) => if m.contains_key(k) {
            Ok(CtrlValue::Sourced(m[k]))
        } else {
            Err(ControlErrorKind::Dangling { id: k })
        },
    }
}

/// A value within the declared range builds a fixed control that gives the
/// value back unchanged; a value outside it is refused with a range error
/// that carries the value and the bounds.
pub proof fn lemma_range_enforcement(value: i64, range: (i64, i64))
    ensures
        range.0 <= value <= range.1 ==> (range_checked(value, range) matches Ok(k) && resolved(k)
            == Some(value)),
        !(range.0 <= value <= range.1) ==> range_checked(value, range) == Err::<
            CtrlValue,
            ControlErrorKind,
        >(ControlErrorKind::OutOfRange { value, min: range.0, max: range.1 }),
{
}

/// Healing a control sourced from `k` through a map that sends `k` to `k2`
/// makes it sourced from `k2`; through a map without `k` it fails with a
/// dangling-reference error for `k`.
pub proof fn lemma_heal_rewrites_source(k: usize, k2: usize, m: Map<usize, usize>)
    ensures
        healed(CtrlValue::Sourced(k), Map::empty().insert(k, k2)) == Ok::<
            CtrlValue,
            ControlErrorKind,
        >(CtrlValue::Sourced(k2)),
        !m.contains_key(k) ==> healed(CtrlValue::Sourced(k), m) == Err::<
            CtrlValue,
            ControlErrorKind,
        >(ControlErrorKind::Dangling { id: k }),
{
}

} // verus!
