use vstd::prelude::*;
use crate::time::{
    fold_meta, initial_time_manager, time_manager_from_meta, MetaEvent, TimeError, TimeManager,
    Timing,
};

verus! {

/// What midly makes of a file's bytes: its timing and the meta events of all
/// its tracks, tracks in file order; `None` where the bytes are no standard
/// MIDI file.
pub uninterp spec fn smf_meta(bytes: Seq<u8>) -> Option<(Timing, Seq<MetaEvent>)>;

/// Whether a header chunk starts at `i`: the id `MThd`.
pub open spec fn header_at(bytes: Seq<u8>, i: int) -> bool {
    &&& 0 <= i
    &&& i + 13 <= bytes.len()
    &&& bytes[i] == 0x4d
    &&& bytes[i + 1] == 0x54
    &&& bytes[i + 2] == 0x68
    &&& bytes[i + 3] == 0x64
}

/// Whether some header chunk (plain, or inside a RIFF wrapper) has a
/// timecode timing whose frame byte is 0x80: midly negates that byte as an
/// `i8`, which overflows.
pub open spec fn timing_byte_overflows(bytes: Seq<u8>) -> bool {
    exists|i: int| #[trigger] header_at(bytes, i) && bytes[i + 12] == 0x80
}

fn has_overflowing_timing(bytes: &[u8]) -> (r: bool)
    ensures
        r == timing_byte_overflows(bytes@),
{
    let n = bytes.len();
    if n < 13 {
        return false;
    }
    let mut i: usize = 0;
    while i <= n - 13
        invariant
            n == bytes@.len(),
            n >= 13,
            i <= n - 12,
            forall|j: int| 0 <= j < i ==> !(#[trigger] header_at(bytes@, j) && bytes@[j + 12] == 0x80),
        decreases n - i,
    {
        if bytes[i] == 0x4d && bytes[i + 1] == 0x54 && bytes[i + 2] == 0x68 && bytes[i + 3] == 0x64
            && bytes[i + 12] == 0x80 {
            assert(header_at(bytes@, i as int));
            return true;
        }
        i = i + 1;
    }
    assert forall|j: int| #[trigger] header_at(bytes@, j) implies bytes@[j + 12] != 0x80 by {
        assert(j <= n - 13);
    }
    false
}

/// Relies on midly::Smf::parse to read a standard MIDI file: the header's
/// timing, and each event of each track reduced to the tempo and time
/// signature fields that the tempo map reads.
#[verifier::external_body]
fn parse_smf_meta(bytes: &[u8]) -> (r: Option<(Timing, Vec<MetaEvent>)>)
    requires
        !timing_byte_overflows(bytes@),
    ensures
        match r {
            Some((t, v)) => smf_meta(bytes@) == Some((t, v@)),
            None => smf_meta(bytes@) is None,
        },
{
    let smf = midly::Smf::parse(bytes).ok()?;
    let timing = match smf.header.timing {
        midly::Timing::Metrical(t) => Timing::Metrical(t.as_int()),
        midly::Timing::Timecode(_, _) => Timing::Timecode,
    };
    let events = smf.tracks.iter().flatten().map(|e| match e.kind {
        midly::TrackEventKind::Meta(midly::MetaMessage::Tempo(us)) => MetaEvent::Tempo(us.as_int()),
        midly::TrackEventKind::Meta(midly::MetaMessage::TimeSignature(n, d, _, _)) => {
            MetaEvent::TimeSignature(n, d)
        },
        _ => MetaEvent::Other,
    }).collect();
    Some((timing, events))
}

/// The tempo map of a standard MIDI file given as bytes. A header whose
/// timecode frame byte is 0x80 is refused as malformed.
pub fn tempo_map_from_smf(bytes: &[u8]) -> (r: Result<TimeManager, TimeError>)
    ensures
        timing_byte_overflows(bytes@) ==> r == Err::<TimeManager, TimeError>(TimeError::Malformed),
        !timing_byte_overflows(bytes@) ==> match smf_meta(bytes@) {
            None => r == Err::<TimeManager, TimeError>(TimeError::Malformed),
            Some((Timing::Metrical(tpb), events)) => r == Ok::<TimeManager, TimeError>(
                fold_meta(initial_time_manager(tpb), events),
            ),
            Some((Timing::Timecode, _)) => r == Err::<TimeManager, TimeError>(
                TimeError::Unsupported,
            ),
        },
{
    if has_overflowing_timing(bytes) {
        return Err(TimeError::Malformed);
    }
    match parse_smf_meta(bytes) {
        Some((timing, events)) => time_manager_from_meta(timing, &events),
        None => Err(TimeError::Malformed),
    }
}

} // verus!
