use std::collections::VecDeque;

use vstd::prelude::*;

use crate::midi::MidiMessage;
use midly::MidiMessage as Wire;

verus! {

#[verifier::external_type_specification]
#[verifier::external_body]
pub struct ExSmf<'a>(midly::Smf<'a>);

#[verifier::external_type_specification]
#[verifier::external_body]
pub struct ExMidlyError(midly::Error);

/// What a track event of a standard MIDI file carries, as far as playback
/// goes: a channel message, a tempo change, or something else.
#[derive(Clone, Copy, Debug, PartialEq, Eq, Structural)]
pub enum SmfEventKind {
    Midi { channel: u8, message: MidiMessage },
    /// Microseconds per beat.
    Tempo(u32),
    Other,
}

/// A track event: its delay in ticks after the previous event of its track.
#[derive(Clone, Copy, Debug, PartialEq, Eq, Structural)]
pub struct SmfEvent {
    pub delta: u32,
    pub kind: SmfEventKind,
}

/// How the ticks of a file relate to time.
#[derive(Clone, Copy, Debug, PartialEq, Eq, Structural)]
pub enum SmfTiming {
    /// Ticks per beat; the beat length comes from the tempo.
    Metrical(u16),
    /// Frames per second (24, 25, 29 for 29.97, or 30) and ticks per frame.
    Timecode(u8, u8),
}

/// The events of each track of a parsed file.
pub uninterp spec fn smf_tracks(smf: midly::Smf<'static>) -> Seq<Seq<SmfEvent>>;

/// The timing in the header of a parsed file.
pub uninterp spec fn smf_timing(smf: midly::Smf<'static>) -> SmfTiming;

/// What the parser of standard MIDI files makes of some bytes: the timing
/// and the tracks, or `None` where the bytes are no valid file.
pub uninterp spec fn smf_parsed(bytes: Seq<u8>) -> Option<(SmfTiming, Seq<Seq<SmfEvent>>)>;

/// Parses a standard MIDI file with `midly::Smf::parse` and detaches the
/// result from the input with `to_static`. Claimed: the result is `Ok`
/// exactly when the parser accepts the bytes, and then its timing and tracks
/// are what the parser made of them.
#[verifier::external_body]
fn parse_smf(bytes: &[u8]) -> (res: Result<midly::Smf<'static>, midly::Error>)
    ensures
        match res {
            Ok(smf) => smf_parsed(bytes@) == Some((smf_timing(smf), smf_tracks(smf))),
            Err(_) => smf_parsed(bytes@) is None,
        },
{
    midly::Smf::parse(bytes).map(|smf| smf.to_static())
}

/// The number of tracks, read from `Smf::tracks`.
#[verifier::external_body]
fn track_count(smf: &midly::Smf<'static>) -> (res: usize)
    ensures
        res == smf_tracks(*smf).len(),
{
    smf.tracks.len()
}

/// The number of events of track `k`.
#[verifier::external_body]
fn track_len(smf: &midly::Smf<'static>, k: usize) -> (res: usize)
    requires
        k < smf_tracks(*smf).len(),
    ensures
        res == smf_tracks(*smf)[k as int].len(),
{
    smf.tracks[k].len()
}

/// The delta time of event `i` of track `k` and, for a tempo meta event, its
/// microseconds per beat (`TrackEventKind::Meta(MetaMessage::Tempo(..))`).
#[verifier::external_body]
fn event_head(smf: &midly::Smf<'static>, k: usize, i: usize) -> (res: (u32, Option<u32>))
    requires
        k < smf_tracks(*smf).len(),
        i < smf_tracks(*smf)[k as int].len(),
    ensures
        res.0 == smf_tracks(*smf)[k as int][i as int].delta,
        res.1 == match smf_tracks(*smf)[k as int][i as int].kind {
            SmfEventKind::Tempo(us) => Some(us),
            _ => None,
        },
{
    let ev = &smf.tracks[k][i];
    let tempo = match ev.kind {
        midly::TrackEventKind::Meta(midly::MetaMessage::Tempo(us)) => Some(us.as_int()),
        _ => None,
    };
    (ev.delta.as_int(), tempo)
}

/// The key messages (`NoteOff`, `NoteOn`, `Aftertouch`) that are no
/// channel message.
pub open spec fn is_key_message(m: MidiMessage) -> bool {
    m is NoteOff || m is NoteOn || m is Aftertouch
}

/// The channel and message of event `i` of track `k` when it is a channel
/// message (`TrackEventKind::Midi`) about a key, field by field.
#[verifier::external_body]
fn event_key_message(smf: &midly::Smf<'static>, k: usize, i: usize) -> (res: Option<(u8, MidiMessage)>)
    requires
        k < smf_tracks(*smf).len(),
        i < smf_tracks(*smf)[k as int].len(),
    ensures
        res == match smf_tracks(*smf)[k as int][i as int].kind {
            SmfEventKind::Midi { channel, message } => if is_key_message(message) {
                Some((channel, message))
            } else {
                None
            },
            _ => None,
        },
{
    match smf.tracks[k][i].kind {
        midly::TrackEventKind::Midi { channel: c, message: m } => match m {
            Wire::NoteOff { key, vel } => Some((c.as_int(), MidiMessage::NoteOff { key: key.as_int(), vel: vel.as_int() })),
            Wire::NoteOn { key, vel } => Some((c.as_int(), MidiMessage::NoteOn { key: key.as_int(), vel: vel.as_int() })),
            Wire::Aftertouch { key, vel } => Some((c.as_int(), MidiMessage::Aftertouch { key: key.as_int(), vel: vel.as_int() })),
            _ => None,
        },
        _ => None,
    }
}

/// The channel and message of event `i` of track `k` when it is a channel
/// message (`TrackEventKind::Midi`) about the whole channel, field by field.
#[verifier::external_body]
fn event_channel_message(smf: &midly::Smf<'static>, k: usize, i: usize) -> (res: Option<(u8, MidiMessage)>)
    requires
        k < smf_tracks(*smf).len(),
        i < smf_tracks(*smf)[k as int].len(),
    ensures
        res == match smf_tracks(*smf)[k as int][i as int].kind {
            SmfEventKind::Midi { channel, message } => if is_key_message(message) {
                None
            } else {
                Some((channel, message))
            },
            _ => None,
        },
{
    match smf.tracks[k][i].kind {
        midly::TrackEventKind::Midi { channel: c, message: m } => Some((c.as_int(), match m {
            Wire::Controller { controller, value } => MidiMessage::Controller { controller: controller.as_int(), value: value.as_int() },
            Wire::ProgramChange { program } => MidiMessage::ProgramChange { program: program.as_int() },
            Wire::ChannelAftertouch { vel } => MidiMessage::ChannelAftertouch { vel: vel.as_int() },
            Wire::PitchBend { bend } => MidiMessage::PitchBend { bend: bend.0.as_int() },
            _ => return None,
        })),
        _ => None,
    }
}

/// The timing of the header (`Smf::header.timing`), with the frame rate as
/// `Fps::as_int` gives it.
#[verifier::external_body]
fn timing_of(smf: &midly::Smf<'static>) -> (res: SmfTiming)
    ensures
        res == smf_timing(*smf),
{
    match smf.header.timing {
        midly::Timing::Metrical(ticks) => SmfTiming::Metrical(ticks.as_int()),
        midly::Timing::Timecode(fps, sub) => SmfTiming::Timecode(fps.as_int(), sub),
    }
}

/// Event `i` of track `k`.
fn event_at(smf: &midly::Smf<'static>, k: usize, i: usize) -> (res: SmfEvent)
    requires
        k < smf_tracks(*smf).len(),
        i < smf_tracks(*smf)[k as int].len(),
    ensures
        res == smf_tracks(*smf)[k as int][i as int],
{
    let (delta, tempo) = event_head(smf, k, i);
    let kind = match event_key_message(smf, k, i) {
        Some((channel, message)) => SmfEventKind::Midi { channel, message },
        None => match event_channel_message(smf, k, i) {
            Some((channel, message)) => SmfEventKind::Midi { channel, message },
            None => match tempo {
                Some(us) => SmfEventKind::Tempo(us),
                None => SmfEventKind::Other,
            },
        },
    };
    SmfEvent { delta, kind }
}

/// The tempo in force: microseconds per beat.
#[derive(Clone, Copy, Debug, PartialEq, Eq, Structural)]
pub struct Beat {
    us: u32,
}

/// The tempo after the events of `events` up to `n`, starting from `us`.
pub open spec fn tempo_after(us: u32, events: Seq<SmfEvent>, n: int) -> u32
    decreases n,
{
    if n <= 0 {
        us
    } else {
        match events[n - 1].kind {
            SmfEventKind::Tempo(t) => t,
            _ => tempo_after(us, events, n - 1),
        }
    }
}

impl Beat {
    pub closed spec fn micros(self) -> u32 {
        self.us
    }

    /// 90 beats per minute.
    pub fn default() -> (res: Self)
        ensures
            res.micros() == 666667,
    {
        Beat { us: 666667 }
    }

    pub fn us(&self) -> (res: u32)
        ensures
            res == self.micros(),
    {
        self.us
    }

    /// A tempo event sets the tempo; other events leave it.
    pub fn update(&mut self, kind: &SmfEventKind)
        ensures
            final(self).micros() == match *kind {
                SmfEventKind::Tempo(t) => t,
                _ => old(self).micros(),
            },
    {
        if let SmfEventKind::Tempo(us) = kind {
            self.us = *us;
        }
    }
}

/// The length of one tick: `us_per_beat / ticks_per_beat` microseconds, or
/// `1 / fps / subframes` seconds.
#[derive(Clone, Copy, Debug, PartialEq, Eq, Structural)]
pub enum TickLength {
    Metrical { us_per_beat: u32, ticks_per_beat: u16 },
    Timecode { fps: u8, subframes: u8 },
}

/// Why a file cannot be played.
#[derive(Debug)]
pub enum SmfError {
    /// The bytes are no standard MIDI file.
    Parse(midly::Error),
    /// The file has no track, so no tempo track.
    NoTracks,
}

/// Plays the channel messages of a standard MIDI file by tick count: every
/// track has a cursor and the tick of its last played event.
pub struct SmfSource {
    smf: midly::Smf<'static>,
    cursors: Vec<usize>,
    last_ev_tick: Vec<u32>,
    tick: TickLength,
    queue: VecDeque<(u8, MidiMessage)>,
}

impl SmfSource {
    pub closed spec fn tracks(&self) -> Seq<Seq<SmfEvent>> {
        smf_tracks(self.smf)
    }

    pub closed spec fn positions(&self) -> Seq<usize> {
        self.cursors@
    }

    pub closed spec fn last_ticks(&self) -> Seq<u32> {
        self.last_ev_tick@
    }

    pub closed spec fn pending(&self) -> Seq<(u8, MidiMessage)> {
        self.queue@
    }

    pub closed spec fn tick_length(&self) -> TickLength {
        self.tick
    }

    pub open spec fn wf(&self) -> bool {
        &&& self.positions().len() == self.tracks().len()
        &&& self.last_ticks().len() == self.tracks().len()
        &&& forall|k: int|
            0 <= k < self.tracks().len() ==> #[trigger] self.positions()[k] <= self.tracks()[k].len()
    }

    /// The tick at which the next event of track `k` is due.
    pub open spec fn due(&self, k: int) -> int {
        self.last_ticks()[k] + self.tracks()[k][self.positions()[k] as int].delta
    }

    /// No due tick overflows a `u32`.
    pub open spec fn due_ticks_fit(&self) -> bool {
        forall|k: int|
            0 <= k < self.tracks().len() && self.positions()[k] < self.tracks()[k].len()
                ==> #[trigger] self.due(k) <= u32::MAX
    }

    /// A source at the start of the parsed file `smf`, whose tick length comes
    /// from the header timing and the last tempo event of the first track.
    pub fn from_smf(smf: midly::Smf<'static>) -> (res: Self)
        requires
            smf_tracks(smf).len() > 0,
        ensures
            res.wf(),
            res.tracks() == smf_tracks(smf),
            res.positions() == Seq::new(smf_tracks(smf).len(), |k: int| 0usize),
            res.last_ticks() == Seq::new(smf_tracks(smf).len(), |k: int| 0u32),
            res.pending() == Seq::<(u8, MidiMessage)>::empty(),
            res.tick_length() == match smf_timing(smf) {
                SmfTiming::Metrical(ticks) => TickLength::Metrical {
                    us_per_beat: tempo_after(666667, smf_tracks(smf)[0], smf_tracks(smf)[0].len() as int),
                    ticks_per_beat: ticks,
                },
                SmfTiming::Timecode(fps, sub) => TickLength::Timecode { fps, subframes: sub },
            },
    {
        let mut beat = Beat::default();
        let n0 = track_len(&smf, 0);
        let mut i: usize = 0;
        while i < n0
            invariant
                smf_tracks(smf).len() > 0,
                n0 == smf_tracks(smf)[0].len(),
                i <= n0,
                beat.micros() == tempo_after(666667, smf_tracks(smf)[0], i as int),
            decreases n0 - i,
        {
            let ev = event_at(&smf, 0, i);
            beat.update(&ev.kind);
            i = i + 1;
        }
        let tick = match timing_of(&smf) {
            SmfTiming::Metrical(ticks) => TickLength::Metrical { us_per_beat: beat.us(), ticks_per_beat: ticks },
            SmfTiming::Timecode(fps, sub) => TickLength::Timecode { fps, subframes: sub },
        };
        let count = track_count(&smf);
        let mut cursors: Vec<usize> = Vec::new();
        let mut last_ev_tick: Vec<u32> = Vec::new();
        let mut k: usize = 0;
        while k < count
            invariant
                count == smf_tracks(smf).len(),
                k <= count,
                cursors@ == Seq::new(k as nat, |j: int| 0usize),
                last_ev_tick@ == Seq::new(k as nat, |j: int| 0u32),
            decreases count - k,
        {
            cursors.push(0);
            last_ev_tick.push(0);
            k = k + 1;
            proof {
                assert(cursors@ =~= Seq::new(k as nat, |j: int| 0usize));
                assert(last_ev_tick@ =~= Seq::new(k as nat, |j: int| 0u32));
            }
        }
        SmfSource { smf, cursors, last_ev_tick, tick, queue: VecDeque::new() }
    }

    /// Parses `bytes` and starts playing them.
    pub fn new(bytes: &[u8]) -> (res: Result<Self, SmfError>)
        ensures
            match res {
                Ok(src) => smf_parsed(bytes@) matches Some(p) && p.1.len() > 0 && src.wf()
                    && src.tracks() == p.1 && src.pending().len() == 0 && src.positions()
                    == Seq::new(p.1.len(), |k: int| 0usize) && src.last_ticks() == Seq::new(
                    p.1.len(),
                    |k: int| 0u32,
                ) && src.tick_length() == match p.0 {
                    SmfTiming::Metrical(ticks) => TickLength::Metrical {
                        us_per_beat: tempo_after(666667, p.1[0], p.1[0].len() as int),
                        ticks_per_beat: ticks,
                    },
                    SmfTiming::Timecode(fps, sub) => TickLength::Timecode { fps, subframes: sub },
                },
                Err(SmfError::Parse(_)) => smf_parsed(bytes@) is None,
                Err(SmfError::NoTracks) => smf_parsed(bytes@) matches Some(p) && p.1.len() == 0,
            },
    {
        match parse_smf(bytes) {
            Ok(smf) => {
                if track_count(&smf) == 0 {
                    Err(SmfError::NoTracks)
                } else {
                    Ok(Self::from_smf(smf))
                }
            },
            Err(e) => Err(SmfError::Parse(e)),
        }
    }

    /// The length of one tick, by which the player turns elapsed time into
    /// the tick count that `try_next` takes.
    pub fn tick(&self) -> (res: TickLength)
        ensures
            res == self.tick_length(),
    {
        self.tick
    }

    /// Tells whether every next due tick fits a `u32`, as `try_next` needs.
    pub fn can_advance(&self) -> (res: bool)
        requires
            self.wf(),
        ensures
            res == self.due_ticks_fit(),
    {
        let count = track_count(&self.smf);
        let mut k: usize = 0;
        while k < count
            invariant
                self.wf(),
                count == self.tracks().len(),
                k <= count,
                forall|j: int|
                    0 <= j < k && self.positions()[j] < self.tracks()[j].len() ==> #[trigger] self.due(j)
                        <= u32::MAX,
            decreases count - k,
        {
            let len = track_len(&self.smf, k);
            if self.cursors[k] < len {
                let ev = event_at(&self.smf, k, self.cursors[k]);
                if self.last_ev_tick[k] as u64 + ev.delta as u64 > u32::MAX as u64 {
                    assert(self.due(k as int) > u32::MAX);
                    return false;
                }
            }
            k = k + 1;
        }
        true
    }

    /// One step at tick `tick_n` since the start: every track whose next
    /// event is due plays it (channel messages join the queue) and moves on by
    /// one event; then the oldest queued message is handed out.
    pub fn try_next(&mut self, tick_n: u32) -> (res: Option<(u8, MidiMessage)>)
        requires
            old(self).wf(),
            old(self).due_ticks_fit(),
        ensures
            final(self).wf(),
            final(self).tracks() == old(self).tracks(),
            final(self).tick_length() == old(self).tick_length(),
            forall|k: int|
                0 <= k < old(self).tracks().len() && old(self).positions()[k] < old(self).tracks()[k].len()
                    && tick_n >= old(self).last_ticks()[k] + old(self).tracks()[k][old(self).positions()[k] as int].delta
                    ==> #[trigger] final(self).last_ticks()[k] == old(self).last_ticks()[k] + old(self).tracks()[k][old(
                    self,
                ).positions()[k] as int].delta && final(self).positions()[k] == (old(self).positions()[k] + 1) as usize,
            forall|k: int|
                0 <= k < old(self).tracks().len() && !(old(self).positions()[k] < old(self).tracks()[k].len()
                    && tick_n >= old(self).last_ticks()[k] + old(self).tracks()[k][old(self).positions()[k] as int].delta)
                    ==> #[trigger] final(self).last_ticks()[k] == old(self).last_ticks()[k] && final(self).positions()[k]
                    == old(self).positions()[k],
            forall|k: int|
                0 <= k < old(self).tracks().len() ==> {
                    let fires = old(self).positions()[k] < old(self).tracks()[k].len() && tick_n
                        >= old(self).due(k);
                    &&& #[trigger] final(self).positions()[k] == if fires {
                        (old(self).positions()[k] + 1) as usize
                    } else {
                        old(self).positions()[k]
                    }
                    &&& final(self).last_ticks()[k] == if fires {
                        old(self).due(k) as u32
                    } else {
                        old(self).last_ticks()[k]
                    }
                },
            ({
                    let queued = old(self).pending() + old(self).played_at(
                        tick_n,
                        old(self).tracks().len() as int,
                    );
                    &&& (queued.len() == 0 ==> res is None && final(self).pending() == queued)
                    &&& (queued.len() > 0 ==> res == Some(queued[0]) && final(self).pending()
                        == queued.drop_first())
                }),
    {
        let count = track_count(&self.smf);
        let ghost start = *self;
        let mut k: usize = 0;
        while k < count
            invariant
                start.wf(),
                start.due_ticks_fit(),
                self.wf(),
                count == start.tracks().len(),
                k <= count,
                self.tracks() == start.tracks(),
                self.tick == start.tick,
                self.queue@ == start.queue@ + start.played_at(tick_n, k as int),
                forall|j: int|
                    k <= j < count ==> self.positions()[j] == start.positions()[j]
                        && self.last_ticks()[j] == start.last_ticks()[j],
                forall|j: int|
                    0 <= j < k ==> {
                        let fires = start.positions()[j] < start.tracks()[j].len() && tick_n
                            >= start.due(j);
                        &&& #[trigger] self.positions()[j] == if fires {
                            (start.positions()[j] + 1) as usize
                        } else {
                            start.positions()[j]
                        }
                        &&& self.last_ticks()[j] == if fires {
                            start.due(j) as u32
                        } else {
                            start.last_ticks()[j]
                        }
                    },
            decreases count - k,
        {
            let ghost prev = *self;
            let len = track_len(&self.smf, k);
            let cur = self.cursors[k];
            if cur < len {
                let ev = event_at(&self.smf, k, cur);
                assert(start.due(k as int) <= u32::MAX);
                let target = self.last_ev_tick[k] + ev.delta;
                if tick_n >= target {
                    if let SmfEventKind::Midi { channel, message } = ev.kind {
                        self.queue.push_back((channel, message));
                    }
                    self.last_ev_tick.set(k, target);
                    self.cursors.set(k, cur + 1);
                }
            }
            proof {
                assert forall|j: int| 0 <= j < k implies #[trigger] self.positions()[j]
                    == prev.positions()[j] && self.last_ticks()[j] == prev.last_ticks()[j] by {}
                let j = k as int;
                let fires = start.positions()[j] < start.tracks()[j].len() && tick_n >= start.due(j);
                assert(self.positions()[j] == if fires {
                    (start.positions()[j] + 1) as usize
                } else {
                    start.positions()[j]
                });
                assert(self.last_ticks()[j] == if fires {
                    start.due(j) as u32
                } else {
                    start.last_ticks()[j]
                });
                assert(start.played_at(tick_n, k + 1) == start.played_at(tick_n, k as int) + start.played_by(
                    tick_n,
                    k as int,
                ));
            }
            k = k + 1;
        }
        let ghost queued = self.queue@;
        let res = self.queue.pop_front();
        proof {
            if queued.len() > 0 {
                assert(self.queue@ == queued.drop_first());
            }
            assert forall|j: int|
                0 <= j < start.tracks().len() && start.positions()[j] < start.tracks()[j].len() && tick_n
                    >= start.last_ticks()[j] + start.tracks()[j][start.positions()[j] as int].delta implies #[trigger] self.last_ticks()[j]
                == start.last_ticks()[j] + start.tracks()[j][start.positions()[j] as int].delta && self.positions()[j]
                == (start.positions()[j] + 1) as usize by {
                assert(start.due(j) == start.last_ticks()[j] + start.tracks()[j][start.positions()[j] as int].delta);
                assert(self.positions()[j] == (start.positions()[j] + 1) as usize);
            }
            assert forall|j: int|
                0 <= j < start.tracks().len() && !(start.positions()[j] < start.tracks()[j].len() && tick_n
                    >= start.last_ticks()[j] + start.tracks()[j][start.positions()[j] as int].delta) implies #[trigger] self.last_ticks()[j]
                == start.last_ticks()[j] && self.positions()[j] == start.positions()[j] by {
                assert(self.positions()[j] == start.positions()[j]);
            }
        }
        res
    }

    /// The message track `k` contributes at tick `tick_n`: its next event when
    /// that is a due channel message.
    pub open spec fn played_by(&self, tick_n: u32, k: int) -> Seq<(u8, MidiMessage)> {
        if self.positions()[k] < self.tracks()[k].len() && tick_n >= self.due(k) {
            match self.tracks()[k][self.positions()[k] as int].kind {
                SmfEventKind::Midi { channel, message } => seq![(channel, message)],
                _ => Seq::empty(),
            }
        } else {
            Seq::empty()
        }
    }

    /// The messages the first `n` tracks contribute at tick `tick_n`, in track order.
    pub open spec fn played_at(&self, tick_n: u32, n: int) -> Seq<(u8, MidiMessage)>
        decreases n,
    {
        if n <= 0 {
            Seq::empty()
        } else {
            self.played_at(tick_n, n - 1) + self.played_by(tick_n, n - 1)
        }
    }
}

/// Delta times are relative: the next event of a track is due its delta
/// ticks after the tick at which the track's last event played (tick 0 at
/// the start).
pub proof fn law_due_is_relative_to_last_event(src: SmfSource, k: int)
    requires
        0 <= k < src.tracks().len(),
        src.positions()[k] < src.tracks()[k].len(),
    ensures
        src.due(k) == src.last_ticks()[k] + src.tracks()[k][src.positions()[k] as int].delta,
        src.due(k) >= src.last_ticks()[k],
{
}

} // verus!
