use vstd::prelude::*;
use crate::control::{healed, source_live, Control, ControlError, CtrlValue, IdMap};
use crate::envelope::Envelope;
use crate::time::TimeStamp;
use crate::wave::{mul_div, scale_by_fits, Stereo};
use crate::UNIT;

verus! {

/// Highest gain of a volume effect: five times unity.
pub const VOL_MAX: i64 = 5_000_000;

/// A gain effect driven by one control, that can be switched on and off.
#[derive(Debug)]
pub struct Volume {
    volume: Control,
    on: bool,
}

impl Volume {
    pub closed spec fn volume_ctrl(&self) -> Control {
        self.volume
    }

    pub closed spec fn is_on(&self) -> bool {
        self.on
    }

    /// The gain is bounded by `[0, VOL_MAX]`; a fixed gain lies within.
    pub open spec fn wf(&self) -> bool {
        &&& self.volume_ctrl().lo() == 0
        &&& self.volume_ctrl().hi() == VOL_MAX
        &&& self.volume_ctrl().wf()
    }

    /// The `n` gains from the trigger time on: a fixed gain repeated, or
    /// the span of the source envelope.
    pub open spec fn gains(&self, n: int, sources: Seq<Envelope>) -> Seq<i64> {
        match self.volume_ctrl().kind() {
            CtrlValue::Fixed(v) => Seq::new(n as nat, |i: int| v),
            CtrlValue::Sourced(k) => sources[k as int].span(n),
        }
    }

    /// A fixed gain, or a source that `sources` holds and whose span has
    /// exactly `n` gains.
    pub open spec fn gains_resolve(&self, n: int, sources: Seq<Envelope>) -> bool {
        match self.volume_ctrl().kind() {
            CtrlValue::Fixed(_) => true,
            CtrlValue::Sourced(k) => k < sources.len() && sources[k as int].span(n).len() == n,
        }
    }

    /// Unity gain, switched on.
    pub fn new() -> (r: Volume)
        ensures
            r.wf(),
            r.volume_ctrl().is_fixed_at(UNIT),
            r.is_on(),
    {
        Volume { volume: Control::from_val_in_range(UNIT, (0, VOL_MAX)).unwrap(), on: true }
    }

    /// Multiplies each sample of the wave by its gain when switched on,
    /// reading a sourced gain from `sources`, the envelopes indexed by id;
    /// otherwise leaves the wave as it is.
    pub fn apply(&self, wave: &mut Stereo, time_triggered: TimeStamp, sources: &Vec<Envelope>)
        requires
            self.wf(),
            old(wave).wf(),
            forall|i: int| 0 <= i < sources@.len() ==> (#[trigger] sources@[i]).wf(),
            old(wave).right().len() + 4_000_000 <= usize::MAX,
            self.is_on() ==> self.gains_resolve(old(wave).right().len() as int, sources@),
            self.is_on() ==> scale_by_fits(
                old(wave).right(),
                self.gains(old(wave).right().len() as int, sources@),
            ),
            self.is_on() ==> scale_by_fits(
                old(wave).left(),
                self.gains(old(wave).right().len() as int, sources@),
            ),
        ensures
            final(wave).wf(),
            !self.is_on() ==> *final(wave) == *old(wave),
            self.is_on() ==> {
                let g = self.gains(old(wave).right().len() as int, sources@);
                &&& final(wave).right().len() == old(wave).right().len()
                &&& forall|k: int|
                    0 <= k < final(wave).right().len() ==> #[trigger] final(wave).right()[k]
                        == mul_div(old(wave).right()[k] as int, g[k] as int, UNIT as int)
                &&& forall|k: int|
                    0 <= k < final(wave).left().len() ==> #[trigger] final(wave).left()[k]
                        == mul_div(old(wave).left()[k] as int, g[k] as int, UNIT as int)
            },
    {
        if self.on {
            match self.volume.get_vec_in(time_triggered, wave.len(), sources) {
                Some(gains) => wave.scale_by_vec(gains),
                None => {},
            }
        }
    }

    /// Makes the gain follow the source registered under `source`.
    pub fn set_source(&mut self, source: usize)
        ensures
            final(self).volume_ctrl().kind() == CtrlValue::Sourced(source),
            final(self).volume_ctrl().lo() == 0,
            final(self).volume_ctrl().hi() == VOL_MAX,
            final(self).wf(),
            final(self).is_on() == old(self).is_on(),
    {
        self.volume = Control::from_source(source, (0, VOL_MAX));
    }

    /// Resets the gain to unity, leaving the switch as it is.
    pub fn set_defaults(&mut self)
        requires
            old(self).wf(),
        ensures
            final(self).wf(),
            final(self).volume_ctrl().is_fixed_at(UNIT),
            final(self).is_on() == old(self).is_on(),
    {
        let _ = self.volume.set_value(UNIT);
    }

    pub fn on(&mut self)
        ensures
            final(self).is_on(),
            final(self).volume_ctrl() == old(self).volume_ctrl(),
    {
        self.on = true;
    }

    pub fn off(&mut self)
        ensures
            !final(self).is_on(),
            final(self).volume_ctrl() == old(self).volume_ctrl(),
    {
        self.on = false;
    }

    pub fn toggle(&mut self)
        ensures
            final(self).is_on() == !old(self).is_on(),
            final(self).volume_ctrl() == old(self).volume_ctrl(),
    {
        self.on = !self.on;
    }

    /// Heals the gain control through `id_map`, tagging a failure with its field.
    pub fn heal_sources(&mut self, id_map: &IdMap) -> (r: Result<(), ControlError>)
        requires
            old(self).wf(),
        ensures
            final(self).wf(),
            r is Ok <==> healed(old(self).volume_ctrl().kind(), id_map@) is Ok,
            healed(old(self).volume_ctrl().kind(), id_map@) matches Ok(k) ==> final(self).volume_ctrl().kind() == k,
            r is Err ==> final(self).volume_ctrl().kind() == old(self).volume_ctrl().kind(),
            r matches Err(e) ==> healed(old(self).volume_ctrl().kind(), id_map@) == Err::<
                CtrlValue,
                _,
            >(e.kind) && e.origin@ == seq![("Volume", "volume")],
            final(self).volume_ctrl().ident() == old(self).volume_ctrl().ident(),
            old(self).volume_ctrl().kind() is Fixed ==> final(self).volume_ctrl() == old(self).volume_ctrl(),
            final(self).is_on() == old(self).is_on(),
    {
        match self.volume.heal_sources(id_map) {
            Ok(()) => Ok(()),
            Err(e) => Err(e.set_origin("Volume", "volume")),
        }
    }

    /// Checks the gain control's source against the live ids.
    pub fn test_sources(&self, live: &Vec<usize>) -> (r: Result<(), ControlError>)
        ensures
            r is Ok <==> source_live(self.volume_ctrl().kind(), live@),
            r matches Err(e) ==> self.volume_ctrl().kind() matches CtrlValue::Sourced(k) && e.kind
                == (crate::control::ControlErrorKind::Dangling { id: k }) && e.origin@ == seq![
                ("Volume", "volume"),
            ],
    {
        match self.volume.test_sources(live) {
            Ok(()) => Ok(()),
            Err(e) => Err(e.set_origin("Volume", "volume")),
        }
    }

    /// Gives the gain control an id if it has none.
    pub fn set_ids(&mut self, next_id: &mut usize)
        requires
            *old(next_id) < usize::MAX,
            old(self).wf(),
        ensures
            final(self).wf(),
            final(self).volume_ctrl().kind() == old(self).volume_ctrl().kind(),
            final(self).volume_ctrl().ident() == (match old(self).volume_ctrl().ident() {
                Some(i) => Some(i),
                None => Some(*old(next_id)),
            }),
            final(self).is_on() == old(self).is_on(),
    {
        self.volume.set_ids(next_id)
    }

    /// The ids reachable through the gain control.
    pub fn get_ids(&self) -> (r: Vec<usize>)
        ensures
            r@ == crate::control::own_ids(self.volume_ctrl().ident(), self.volume_ctrl().kind()),
    {
        self.volume.get_ids()
    }
}

impl Default for Volume {
    fn default() -> (r: Volume)
        ensures
            r.wf(),
            r.volume_ctrl().is_fixed_at(UNIT),
            r.is_on(),
    {
        Self::new()
    }
}

} // verus!
