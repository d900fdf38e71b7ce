//! The field mixer's command rules: which score plays, how its volume envelope
//! is retargeted, which cues hold a slot, and which spoken line is playing.
//!
//! The mixer itself renders PCM; these rules decide what it renders. A score
//! change restarts the envelope from silence to full volume over 100 ms; a
//! volume command retargets it over the command's duration; a cue that takes a
//! slot releases whatever held that slot; at most 64 cues play at once.
use vstd::prelude::*;

verus! {

/// The mixer's output rate, in frames per second.
pub const RATE: u32 = 32028;

/// The most cues that can play at once.
pub const MAX_CUES: usize = 64;

/// An audio command of the field VM.
#[derive(Clone, Copy, Debug, PartialEq, Eq, Structural)]
pub enum AudioCommand {
    /// Plays score `id`; a negative id stops the score.
    Music(i16),
    /// Retargets the score's envelope to `volume` over `duration_ticks` updates.
    MusicVolume { volume: u8, duration_ticks: u32 },
    /// Starts sound cue `id`, optionally holding `slot`.
    Sound { id: i16, pan: u8, volume: u8, slot: Option<u8> },
    /// Releases the cues that hold a slot.
    StopSound(u16),
    /// Sets the volume of the cues that hold a slot.
    SoundVolume { slot: u16, volume: u8 },
    /// Sets the pan of the cues that hold a slot.
    SoundPan { slot: u16, pan: u8 },
    /// Speaks line `id`, replacing any line being spoken.
    Voice(u32),
    /// Silences the spoken line.
    StopVoice,
    /// Selects an event sound bank.
    SelectBank(u8),
}

/// Why the mixer refused a command.
#[derive(Clone, Copy, Debug, PartialEq, Eq, Structural)]
pub enum MixerError {
    UncookedMusic(i16),
    InvalidMusicVolume,
    FadeTooLong,
    InvalidCue,
    UncookedSound(i16),
    InvalidSoundVolume,
    InvalidSoundPan,
    UncookedVoice(u32),
    UncookedBank(u8),
}

/// The score's volume envelope, as last retargeted.
#[derive(Clone, Copy, Debug, PartialEq, Eq, Structural)]
pub enum Envelope {
    /// Full volume, not moving.
    Steady,
    /// From silence to full volume over 100 ms, after a score change.
    Rise,
    /// From its current value to `volume` (of 127) over `milliseconds`.
    Toward { volume: u8, milliseconds: u16 },
}

/// A playing sound cue.
#[derive(Clone, Copy, Debug, PartialEq, Eq, Structural)]
pub struct Cue {
    pub sound: i16,
    pub volume: u8,
    pub pan: u8,
    /// The slot the cue holds, until it is released.
    pub slot: Option<u16>,
    /// Released cues play out their envelope tail and end.
    pub released: bool,
}

/// The cooked scores, sounds and spoken lines the mixer can play.
pub struct Catalog {
    pub music: Vec<i16>,
    pub sounds: Vec<i16>,
    pub voices: Vec<u32>,
}

/// What the mixer plays.
pub struct Mixer {
    pub music: Option<i16>,
    pub envelope: Envelope,
    pub sounds: Vec<Cue>,
    pub voice: Option<u32>,
}

/// The mixer as a value: score, envelope, cues, spoken line.
pub type MixerModel = (Option<i16>, Envelope, Seq<Cue>, Option<u32>);

/// The catalog as a value: scores, sounds, spoken lines.
pub type CatalogModel = (Seq<i16>, Seq<i16>, Seq<u32>);

pub open spec fn model(m: Mixer) -> MixerModel {
    (m.music, m.envelope, m.sounds@, m.voice)
}

pub open spec fn catalog_model(c: Catalog) -> CatalogModel {
    (c.music@, c.sounds@, c.voices@)
}

/// Duration in milliseconds of a fade over `ticks` 60 Hz updates, to the
/// nearest millisecond.
pub open spec fn fade_ms(ticks: int) -> int {
    (50 * ticks + 1) / 3
}

/// The cues after releasing `slot`: its holders are released and free it.
pub open spec fn released(sounds: Seq<Cue>, slot: u16) -> Seq<Cue> {
    sounds.map_values(|c: Cue| if c.slot == Some(slot) { Cue { slot: None, released: true, ..c } } else { c })
}

/// The cues after setting the volume of the holders of `slot`.
pub open spec fn with_volume(sounds: Seq<Cue>, slot: u16, volume: u8) -> Seq<Cue> {
    sounds.map_values(|c: Cue| if c.slot == Some(slot) { Cue { volume, ..c } } else { c })
}

/// The cues after setting the pan of the holders of `slot`.
pub open spec fn with_pan(sounds: Seq<Cue>, slot: u16, pan: u8) -> Seq<Cue> {
    sounds.map_values(|c: Cue| if c.slot == Some(slot) { Cue { pan, ..c } } else { c })
}

/// The score that `Music(id)` asks for.
pub open spec fn score_of(id: i16) -> Option<i16> {
    if id >= 0 { Some(id) } else { None }
}

/// The mixer after `command`, and whether the command was accepted.
pub open spec fn step(m: MixerModel, c: CatalogModel, command: AudioCommand) -> (MixerModel, Result<(), MixerError>) {
    let (music, envelope, sounds, voice) = m;
    match command {
        AudioCommand::Music(id) => if music == score_of(id) {
            (m, Ok(()))
        } else if id >= 0 && !c.0.contains(id) {
            (m, Err(MixerError::UncookedMusic(id)))
        } else {
            ((score_of(id), Envelope::Rise, sounds, voice), Ok(()))
        },
        AudioCommand::MusicVolume { volume, duration_ticks } => if volume >= 128 {
            (m, Err(MixerError::InvalidMusicVolume))
        } else if fade_ms(duration_ticks as int) > u16::MAX {
            (m, Err(MixerError::FadeTooLong))
        } else {
            (
                (music, Envelope::Toward { volume, milliseconds: fade_ms(duration_ticks as int) as u16 }, sounds, voice),
                Ok(()),
            )
        },
        AudioCommand::Sound { id, pan, volume, slot } => if !(pan < 128 && volume < 128 && sounds.len() < MAX_CUES) {
            (m, Err(MixerError::InvalidCue))
        } else {
            let freed = match slot {
                Some(s) => released(sounds, s as u16),
                None => sounds,
            };
            if !c.1.contains(id) {
                ((music, envelope, freed, voice), Err(MixerError::UncookedSound(id)))
            } else {
                let cue = Cue {
                    sound: id,
                    volume,
                    pan,
                    slot: match slot {
                        Some(s) => Some(s as u16),
                        None => None,
                    },
                    released: false,
                };
                ((music, envelope, freed.push(cue), voice), Ok(()))
            }
        },
        AudioCommand::StopSound(slot) => ((music, envelope, released(sounds, slot), voice), Ok(())),
        AudioCommand::SoundVolume { slot, volume } => if volume >= 128 {
            (m, Err(MixerError::InvalidSoundVolume))
        } else {
            ((music, envelope, with_volume(sounds, slot, volume), voice), Ok(()))
        },
        AudioCommand::SoundPan { slot, pan } => if pan >= 128 {
            (m, Err(MixerError::InvalidSoundPan))
        } else {
            ((music, envelope, with_pan(sounds, slot, pan), voice), Ok(()))
        },
        AudioCommand::Voice(id) => if !c.2.contains(id) {
            (m, Err(MixerError::UncookedVoice(id)))
        } else {
            ((music, envelope, sounds, Some(id)), Ok(()))
        },
        AudioCommand::StopVoice => ((music, envelope, sounds, None), Ok(())),
        AudioCommand::SelectBank(bank) => if bank == 0 || bank == 2 {
            (m, Ok(()))
        } else {
            (m, Err(MixerError::UncookedBank(bank)))
        },
    }
}

fn has_i16(items: &Vec<i16>, x: i16) -> (found: bool)
    ensures
        found == items@.contains(x),
{
    let mut i: usize = 0;
    while i < items.len()
        invariant
            i <= items@.len(),
            forall|j: int| 0 <= j < i ==> items@[j] != x,
        decreases items@.len() - i,
    {
        if items[i] == x {
            assert(items@[i as int] == x);
            return true;
        }
        i = i + 1;
    }
    false
}

fn has_u32(items: &Vec<u32>, x: u32) -> (found: bool)
    ensures
        found == items@.contains(x),
{
    let mut i: usize = 0;
    while i < items.len()
        invariant
            i <= items@.len(),
            forall|j: int| 0 <= j < i ==> items@[j] != x,
        decreases items@.len() - i,
    {
        if items[i] == x {
            assert(items@[i as int] == x);
            return true;
        }
        i = i + 1;
    }
    false
}

/// The duration of a fade over `ticks` 60 Hz updates, in whole milliseconds,
/// or `None` when it does not fit 16 bits. One update lasts 17 ms.
pub fn fade_milliseconds(ticks: u32) -> (ms: Option<u16>)
    ensures
        match ms {
            Some(v) => v == fade_ms(ticks as int),
            None => fade_ms(ticks as int) > u16::MAX,
        },
{
    let exact: u64 = (50 * ticks as u64 + 1) / 3;
    if exact > 65535 {
        None
    } else {
        Some(exact as u16)
    }
}

impl Mixer {
    /// A mixer playing nothing, at full volume.
    pub fn new() -> (m: Self)
        ensures
            model(m) == (None::<i16>, Envelope::Steady, Seq::<Cue>::empty(), None::<u32>),
    {
        Mixer { music: None, envelope: Envelope::Steady, sounds: Vec::new(), voice: None }
    }

    /// Releases the cues that hold `slot`, which frees it.
    #[verifier::loop_isolation(false)]
    fn release(&mut self, slot: u16)
        ensures
            model(*final(self)) == (old(self).music, old(self).envelope, released(old(self).sounds@, slot), old(self).voice),
    {
        let ghost before = self.sounds@;
        let mut i: usize = 0;
        while i < self.sounds.len()
            invariant
                i <= self.sounds@.len(),
                self.sounds@.len() == before.len(),
                self.music == old(self).music,
                self.envelope == old(self).envelope,
                self.voice == old(self).voice,
                forall|j: int| 0 <= j < i ==> #[trigger] self.sounds@[j] == released(before, slot)[j],
                forall|j: int| i <= j < before.len() ==> #[trigger] self.sounds@[j] == before[j],
            decreases before.len() - i,
        {
            let cue = self.sounds[i];
            if cue.slot == Some(slot) {
                self.sounds.set(i, Cue { slot: None, released: true, ..cue });
            }
            i = i + 1;
        }
        assert(self.sounds@ =~= released(before, slot));
    }

    /// Stops everything at once, as when the command queue goes away: no
    /// score, no cue, no spoken line.
    pub fn stop(&mut self)
        ensures
            final(self).music is None,
            final(self).sounds@.len() == 0,
            final(self).voice is None,
            final(self).envelope == old(self).envelope,
    {
        self.music = None;
        self.sounds = Vec::new();
        self.voice = None;
    }

    /// Releases every cue, so that each plays out its envelope tail and ends;
    /// slots stay with their holders until the cues end.
    #[verifier::loop_isolation(false)]
    pub fn release_all(&mut self)
        ensures
            final(self).music == old(self).music,
            final(self).envelope == old(self).envelope,
            final(self).voice == old(self).voice,
            final(self).sounds@ == old(self).sounds@.map_values(|c: Cue| Cue { released: true, ..c }),
    {
        let ghost before = self.sounds@;
        let mut i: usize = 0;
        while i < self.sounds.len()
            invariant
                i <= self.sounds@.len(),
                self.sounds@.len() == before.len(),
                self.music == old(self).music,
                self.envelope == old(self).envelope,
                self.voice == old(self).voice,
                forall|j: int| 0 <= j < i ==> #[trigger] self.sounds@[j] == (Cue { released: true, ..before[j] }),
                forall|j: int| i <= j < before.len() ==> #[trigger] self.sounds@[j] == before[j],
            decreases before.len() - i,
        {
            let cue = self.sounds[i];
            self.sounds.set(i, Cue { released: true, ..cue });
            i = i + 1;
        }
        assert(self.sounds@ =~= before.map_values(|c: Cue| Cue { released: true, ..c }));
    }

    /// Applies `command`, using `catalog` for what is cooked. A refused command
    /// changes nothing, except that a refused sound cue has already released
    /// its slot.
    #[verifier::loop_isolation(false)]
    pub fn command(&mut self, catalog: &Catalog, command: AudioCommand) -> (r: Result<(), MixerError>)
        ensures
            (model(*final(self)), r) == step(model(*old(self)), catalog_model(*catalog), command),
    {
        match command {
            AudioCommand::Music(id) => {
                let target = if id >= 0 { Some(id) } else { None };
                if self.music == target {
                    return Ok(());
                }
                if id >= 0 && !has_i16(&catalog.music, id) {
                    return Err(MixerError::UncookedMusic(id));
                }
                self.music = target;
                self.envelope = Envelope::Rise;
                Ok(())
            },
            AudioCommand::MusicVolume { volume, duration_ticks } => {
                if volume >= 128 {
                    return Err(MixerError::InvalidMusicVolume);
                }
                match fade_milliseconds(duration_ticks) {
                    Some(milliseconds) => {
                        self.envelope = Envelope::Toward { volume, milliseconds };
                        Ok(())
                    },
                    None => Err(MixerError::FadeTooLong),
                }
            },
            AudioCommand::Sound { id, pan, volume, slot } => {
                if !(pan < 128 && volume < 128 && self.sounds.len() < MAX_CUES) {
                    return Err(MixerError::InvalidCue);
                }
                if let Some(s) = slot {
                    self.release(s as u16);
                }
                if !has_i16(&catalog.sounds, id) {
                    return Err(MixerError::UncookedSound(id));
                }
                let held = match slot {
                    Some(s) => Some(s as u16),
                    None => None,
                };
                self.sounds.push(Cue { sound: id, volume, pan, slot: held, released: false });
                Ok(())
            },
            AudioCommand::StopSound(slot) => {
                self.release(slot);
                Ok(())
            },
            AudioCommand::SoundVolume { slot, volume } => {
                if volume >= 128 {
                    return Err(MixerError::InvalidSoundVolume);
                }
                let ghost before = self.sounds@;
                let mut i: usize = 0;
                while i < self.sounds.len()
                    invariant
                        i <= self.sounds@.len(),
                        self.sounds@.len() == before.len(),
                        self.music == old(self).music,
                        self.envelope == old(self).envelope,
                        self.voice == old(self).voice,
                self.music == old(self).music,
                self.envelope == old(self).envelope,
                self.voice == old(self).voice,
                        forall|j: int| 0 <= j < i ==> #[trigger] self.sounds@[j] == with_volume(before, slot, volume)[j],
                        forall|j: int| i <= j < before.len() ==> #[trigger] self.sounds@[j] == before[j],
                    decreases before.len() - i,
                {
                    let cue = self.sounds[i];
                    if cue.slot == Some(slot) {
                        self.sounds.set(i, Cue { volume, ..cue });
                    }
                    i = i + 1;
                }
                assert(self.sounds@ =~= with_volume(before, slot, volume));
                Ok(())
            },
            AudioCommand::SoundPan { slot, pan } => {
                if pan >= 128 {
                    return Err(MixerError::InvalidSoundPan);
                }
                let ghost before = self.sounds@;
                let mut i: usize = 0;
                while i < self.sounds.len()
                    invariant
                        i <= self.sounds@.len(),
                        self.sounds@.len() == before.len(),
                        self.music == old(self).music,
                        self.envelope == old(self).envelope,
                        self.voice == old(self).voice,
                self.music == old(self).music,
                self.envelope == old(self).envelope,
                self.voice == old(self).voice,
                        forall|j: int| 0 <= j < i ==> #[trigger] self.sounds@[j] == with_pan(before, slot, pan)[j],
                        forall|j: int| i <= j < before.len() ==> #[trigger] self.sounds@[j] == before[j],
                    decreases before.len() - i,
                {
                    let cue = self.sounds[i];
                    if cue.slot == Some(slot) {
                        self.sounds.set(i, Cue { pan, ..cue });
                    }
                    i = i + 1;
                }
                assert(self.sounds@ =~= with_pan(before, slot, pan));
                Ok(())
            },
            AudioCommand::Voice(id) => {
                if !has_u32(&catalog.voices, id) {
                    return Err(MixerError::UncookedVoice(id));
                }
                self.voice = Some(id);
                Ok(())
            },
            AudioCommand::StopVoice => {
                self.voice = None;
                Ok(())
            },
            AudioCommand::SelectBank(bank) => {
                if bank == 0 || bank == 2 {
                    Ok(())
                } else {
                    Err(MixerError::UncookedBank(bank))
                }
            },
        }
    }
}

/// The first frame of the 160-frame envelope block at or after `frame`.
pub open spec fn next_block(frame: int) -> int {
    ((frame + 159) / 160) * 160
}

/// Whether an envelope block starts within the millisecond (32 frames) that
/// begins at `frame`.
pub open spec fn block_starts_within(frame: int) -> bool {
    next_block(frame) < frame + 32
}

/// For each of the five millisecond controls of a score block that starts at
/// frame `start`, whether the envelope advances after that control: a control
/// sees the envelope as it stands, and later controls of the block see it
/// advanced.
pub fn envelope_advances(start: u64) -> (advances: [bool; 5])
    requires
        start + 4 * 32 <= u64::MAX,
    ensures
        forall|ms: int| 0 <= ms < 5 ==> advances@[ms] == block_starts_within(start + ms * 32),
{
    let mut advances = [false; 5];
    let mut ms: usize = 0;
    while ms < 5
        invariant
            ms <= 5,
            start + 4 * 32 <= u64::MAX,
            forall|k: int| 0 <= k < ms ==> advances@[k] == block_starts_within(start + k * 32),
        decreases 5 - ms,
    {
        let frame: u64 = start + ms as u64 * 32;
        let offset: u64 = frame % 160;
        let starts = offset == 0 || offset > 128;
        proof {
            vstd::arithmetic::div_mod::lemma_fundamental_div_mod(frame as int, 160);
            vstd::arithmetic::div_mod::lemma_fundamental_div_mod(frame + 159, 160);
            assert(starts == block_starts_within(frame as int));
        }
        advances.set(ms, starts);
        ms = ms + 1;
    }
    advances
}

/// Why a recording schedule is refused.
#[derive(Clone, Copy, Debug, PartialEq, Eq, Structural)]
pub enum RecordingError {
    /// The recording is empty or longer than 300 seconds.
    TooLong,
    /// The requests are not in frame order.
    OutOfOrder,
    /// A request falls after the last frame of the recording.
    OutsideRecording,
}

/// Frames in the longest recording: 300 seconds.
pub const MAX_RECORDING_FRAMES: u64 = 9_608_400;

pub open spec fn frames_in_order(at: Seq<u64>) -> bool {
    forall|i: int, j: int| 0 <= i <= j < at.len() ==> at[i] <= at[j]
}

/// Checks a recording of `frames` frames with requests at frames `at`, in the
/// order given: the length first, then the order, then that each request
/// falls inside the recording.
pub fn check_recording(frames: u64, at: &Vec<u64>) -> (r: Result<(), RecordingError>)
    ensures
        r == if !(1 <= frames <= MAX_RECORDING_FRAMES) {
            Err(RecordingError::TooLong)
        } else if !frames_in_order(at@) {
            Err(RecordingError::OutOfOrder)
        } else if exists|i: int| 0 <= i < at@.len() && at@[i] >= frames {
            Err(RecordingError::OutsideRecording)
        } else {
            Ok(())
        },
{
    assert(MAX_RECORDING_FRAMES == RATE as u64 * 300);
    if !(1 <= frames && frames <= MAX_RECORDING_FRAMES) {
        return Err(RecordingError::TooLong);
    }
    let mut i: usize = 1;
    while i < at.len()
        invariant
            1 <= i,
            1 <= frames <= MAX_RECORDING_FRAMES,
            i <= at@.len() || at@.len() == 0,
            forall|a: int, b: int| 0 <= a <= b < i && b < at@.len() ==> at@[a] <= at@[b],
        decreases at@.len() - i,
    {
        if at[i - 1] > at[i] {
            assert(!frames_in_order(at@)) by {
                assert(at@[i - 1] > at@[i as int]);
            }
            return Err(RecordingError::OutOfOrder);
        }
        proof {
            assert forall|a: int, b: int| 0 <= a <= b < i + 1 && b < at@.len() implies at@[a] <= at@[b] by {
                if b == i && a < i {
                    assert(at@[a] <= at@[i - 1]);
                }
            }
        }
        i = i + 1;
    }
    let mut k: usize = 0;
    while k < at.len()
        invariant
            k <= at@.len(),
            1 <= frames <= MAX_RECORDING_FRAMES,
            frames_in_order(at@),
            forall|j: int| 0 <= j < k ==> at@[j] < frames,
        decreases at@.len() - k,
    {
        if at[k] >= frames {
            assert(at@[k as int] >= frames);
            return Err(RecordingError::OutsideRecording);
        }
        k = k + 1;
    }
    Ok(())
}

/// The position after the requests due at `frame`: starting at `next`, the
/// requests at frame `frame` are passed over.
pub fn due_requests(at: &Vec<u64>, next: usize, frame: u64) -> (after: usize)
    requires
        next <= at@.len(),
    ensures
        next <= after <= at@.len(),
        forall|i: int| next <= i < after ==> at@[i] == frame,
        after == at@.len() || at@[after as int] != frame,
{
    let mut after = next;
    while after < at.len() && at[after] == frame
        invariant
            next <= after <= at@.len(),
            forall|i: int| next <= i < after ==> at@[i] == frame,
        decreases at@.len() - after,
    {
        after = after + 1;
    }
    after
}

/// Stopping a slot frees it: afterwards no cue holds it, every cue that held it
/// is released, and no cue is added or dropped.
pub proof fn stopping_a_slot_frees_it(m: MixerModel, c: CatalogModel, slot: u16)
    ensures
        ({
            let (after, r) = step(m, c, AudioCommand::StopSound(slot));
            &&& r is Ok
            &&& after.2.len() == m.2.len()
            &&& forall|i: int| 0 <= i < after.2.len() ==> #[trigger] after.2[i].slot != Some(slot)
            &&& forall|i: int| 0 <= i < m.2.len() && #[trigger] m.2[i].slot == Some(slot) ==> after.2[i].released
        }),
{
}

/// A new score always starts from silence and rises to full volume over
/// 100 ms, whatever fade the previous score was following.
pub proof fn a_new_score_rises_from_silence(m: MixerModel, c: CatalogModel, id: i16)
    requires
        step(m, c, AudioCommand::Music(id)).1 is Ok,
        step(m, c, AudioCommand::Music(id)).0.0 != m.0,
    ensures
        step(m, c, AudioCommand::Music(id)).0.1 == Envelope::Rise,
        step(m, c, AudioCommand::Music(id)).0.0 == score_of(id),
{
}

/// Asking again for the score that is playing changes nothing: the score keeps
/// playing and its envelope is not restarted.
pub proof fn repeating_a_score_changes_nothing(m: MixerModel, c: CatalogModel, id: i16)
    requires
        step(m, c, AudioCommand::Music(id)).1 is Ok,
    ensures
        ({
            let after = step(m, c, AudioCommand::Music(id)).0;
            step(after, c, AudioCommand::Music(id)) == (after, Ok::<(), MixerError>(()))
        }),
{
}

/// No command makes more than 64 cues play at once.
pub proof fn the_cue_budget_holds(m: MixerModel, c: CatalogModel, command: AudioCommand)
    requires
        m.2.len() <= MAX_CUES,
    ensures
        step(m, c, command).0.2.len() <= MAX_CUES,
{
}

/// A refused command starts and stops nothing: the score, its envelope, the
/// spoken line and the number of cues stay as they were.
pub proof fn refused_commands_start_and_stop_nothing(m: MixerModel, c: CatalogModel, command: AudioCommand)
    requires
        step(m, c, command).1 is Err,
    ensures
        ({
            let after = step(m, c, command).0;
            &&& after.0 == m.0
            &&& after.1 == m.1
            &&& after.2.len() == m.2.len()
            &&& after.3 == m.3
        }),
{
}

/// Panning a slot moves only the cues that hold it: a pan of 128 or more is
/// refused and changes nothing; otherwise the cues keep their number and order,
/// every cue that holds the slot takes the new pan and keeps everything else,
/// and every other cue is left exactly as it was. The score, its envelope and
/// the spoken line are untouched either way.
pub proof fn panning_a_slot_moves_only_its_cues(m: MixerModel, c: CatalogModel, slot: u16, pan: u8)
    ensures
        ({
            let (after, r) = step(m, c, AudioCommand::SoundPan { slot, pan });
            &&& pan >= 128 ==> r == Err::<(), MixerError>(MixerError::InvalidSoundPan) && after == m
            &&& pan < 128 ==> r is Ok
            &&& after.0 == m.0
            &&& after.1 == m.1
            &&& after.3 == m.3
            &&& after.2.len() == m.2.len()
            &&& forall|i: int| 0 <= i < m.2.len() && m.2[i].slot != Some(slot) ==> #[trigger] after.2[i] == m.2[i]
            &&& forall|i: int|
                0 <= i < m.2.len() && m.2[i].slot == Some(slot) && pan < 128 ==> {
                    &&& (#[trigger] after.2[i]).pan == pan
                    &&& after.2[i].sound == m.2[i].sound
                    &&& after.2[i].volume == m.2[i].volume
                    &&& after.2[i].slot == m.2[i].slot
                    &&& after.2[i].released == m.2[i].released
                }
        }),
{
}

/// Setting a slot's volume changes only the cues that hold it, in the same
/// way: holders take the new volume, every other cue is left as it was.
pub proof fn setting_a_slot_volume_touches_only_its_cues(m: MixerModel, c: CatalogModel, slot: u16, volume: u8)
    ensures
        ({
            let (after, r) = step(m, c, AudioCommand::SoundVolume { slot, volume });
            &&& volume >= 128 ==> r == Err::<(), MixerError>(MixerError::InvalidSoundVolume) && after == m
            &&& volume < 128 ==> r is Ok
            &&& after.2.len() == m.2.len()
            &&& forall|i: int| 0 <= i < m.2.len() && m.2[i].slot != Some(slot) ==> #[trigger] after.2[i] == m.2[i]
            &&& forall|i: int|
                0 <= i < m.2.len() && m.2[i].slot == Some(slot) && volume < 128 ==> {
                    &&& (#[trigger] after.2[i]).volume == volume
                    &&& after.2[i].sound == m.2[i].sound
                    &&& after.2[i].pan == m.2[i].pan
                    &&& after.2[i].slot == m.2[i].slot
                    &&& after.2[i].released == m.2[i].released
                }
        }),
{
}

} // verus!
