//! Spoken lines: the queue of lines the dialogue is waiting for, the routing of
//! voice commands to those requests, the playback clock of a clip, and the
//! completions acknowledged once the device has played a line out.
use vstd::prelude::*;
use crate::mixer::{catalog_model, model, step, AudioCommand, Catalog, Mixer, MixerError, RATE};

verus! {

/// The most dialogue voice requests or completions waiting at once.
pub const MAX_WAITING: usize = 64;

/// Lines the dialogue asked for, oldest first, each with the ticket that is
/// signalled when the line has been heard.
pub struct VoiceRequests {
    pub entries: Vec<(u32, u64)>,
}

/// Where a command goes: to the spoken-line path with the ticket of the
/// dialogue request it answers, or to the script path.
#[derive(Clone, Copy, Debug, PartialEq, Eq, Structural)]
pub enum Routed {
    Voice(u32, u64),
    Script(AudioCommand),
}

impl VoiceRequests {
    pub fn new() -> (q: Self)
        ensures
            q.entries@ == Seq::<(u32, u64)>::empty(),
    {
        VoiceRequests { entries: Vec::new() }
    }

    /// The dialogue waits for line `resource`; `ticket` is signalled when the
    /// line has been heard.
    pub fn begin(&mut self, resource: u32, ticket: u64)
        requires
            old(self).entries@.len() < MAX_WAITING,
        ensures
            final(self).entries@ == old(self).entries@.push((resource, ticket)),
    {
        self.entries.push((resource, ticket));
    }

    /// Routes `command`: a voice command for the oldest waiting line answers
    /// that request; any other command goes to the script path.
    pub fn route(&mut self, command: AudioCommand) -> (r: Routed)
        ensures
            match command {
                AudioCommand::Voice(id) if old(self).entries@.len() > 0 && old(self).entries@[0].0 == id => {
                    &&& r == Routed::Voice(id, old(self).entries@[0].1)
                    &&& final(self).entries@ == old(self).entries@.drop_first()
                },
                _ => {
                    &&& r == Routed::Script(command)
                    &&& final(self).entries@ == old(self).entries@
                },
            },
    {
        if let AudioCommand::Voice(id) = command {
            if self.entries.len() > 0 && self.entries[0].0 == id {
                let (_, ticket) = self.entries.remove(0);
                proof {
                    assert(self.entries@ =~= old(self).entries@.drop_first());
                }
                return Routed::Voice(id, ticket);
            }
        }
        Routed::Script(command)
    }
}

/// Lines being played, each with the frame at which it has been played out and
/// the ticket to signal then.
pub struct Completions {
    pub entries: Vec<(u64, u64)>,
}

pub open spec fn still_playing(position: u64) -> spec_fn((u64, u64)) -> bool {
    |e: (u64, u64)| e.0 > position
}

pub open spec fn played_out(position: u64) -> spec_fn((u64, u64)) -> bool {
    |e: (u64, u64)| e.0 <= position
}

pub open spec fn ticket(e: (u64, u64)) -> u64 {
    e.1
}

proof fn lemma_filter_step(s: Seq<(u64, u64)>, i: int, pred: spec_fn((u64, u64)) -> bool)
    requires
        0 <= i < s.len(),
    ensures
        s.subrange(0, i + 1).filter(pred) == if pred(s[i]) {
            s.subrange(0, i).filter(pred).push(s[i])
        } else {
            s.subrange(0, i).filter(pred)
        },
{
    reveal(Seq::filter);
    assert(s.subrange(0, i + 1).drop_last() =~= s.subrange(0, i));
}

impl Completions {
    pub fn new() -> (c: Self)
        ensures
            c.entries@ == Seq::<(u64, u64)>::empty(),
    {
        Completions { entries: Vec::new() }
    }

    /// Waits for the line that ends at frame `end`, refusing when 64 lines are
    /// already waiting.
    pub fn push(&mut self, end: u64, ticket: u64) -> (accepted: bool)
        ensures
            accepted == (old(self).entries@.len() < MAX_WAITING),
            final(self).entries@ == if accepted {
                old(self).entries@.push((end, ticket))
            } else {
                old(self).entries@
            },
    {
        if self.entries.len() < MAX_WAITING {
            self.entries.push((end, ticket));
            true
        } else {
            false
        }
    }

    /// The device has played up to frame `position`: the lines that end there
    /// or earlier are done. Returns their tickets, oldest first; the others
    /// keep waiting in their order.
    pub fn acknowledge(&mut self, position: u64) -> (done: Vec<u64>)
        ensures
            final(self).entries@ == old(self).entries@.filter(still_playing(position)),
            done@ == old(self).entries@.filter(played_out(position)).map_values(|e: (u64, u64)| ticket(e)),
    {
        let ghost all = self.entries@;
        let mut kept: Vec<(u64, u64)> = Vec::new();
        let mut done: Vec<u64> = Vec::new();
        let mut i: usize = 0;
        while i < self.entries.len()
            invariant
                i <= all.len(),
                self.entries@ == all,
                kept@ == all.subrange(0, i as int).filter(still_playing(position)),
                done@ == all.subrange(0, i as int).filter(played_out(position)).map_values(|e: (u64, u64)| ticket(e)),
            decreases all.len() - i,
        {
            let entry = self.entries[i];
            proof {
                lemma_filter_step(all, i as int, still_playing(position));
                lemma_filter_step(all, i as int, played_out(position));
            }
            if entry.0 <= position {
                let ghost before = done@;
                done.push(entry.1);
                proof {
                    assert(done@ =~= all.subrange(0, i + 1).filter(played_out(position)).map_values(
                        |e: (u64, u64)| ticket(e),
                    ));
                }
            } else {
                kept.push(entry);
            }
            i = i + 1;
        }
        proof {
            assert(all.subrange(0, all.len() as int) =~= all);
        }
        self.entries = kept;
        done
    }
}

/// Acknowledging a position splits the waiting lines: each is either done,
/// because it ends at or before the position, or still waiting, because it
/// ends after it; none is lost or duplicated.
pub proof fn every_line_is_done_or_still_waiting(entries: Seq<(u64, u64)>, position: u64)
    ensures
        entries.filter(still_playing(position)).len() + entries.filter(played_out(position)).len() == entries.len(),
        forall|i: int| 0 <= i < entries.filter(still_playing(position)).len()
            ==> #[trigger] entries.filter(still_playing(position))[i].0 > position,
        forall|i: int| 0 <= i < entries.filter(played_out(position)).len()
            ==> #[trigger] entries.filter(played_out(position))[i].0 <= position,
    decreases entries.len(),
{
    reveal(Seq::filter);
    if entries.len() > 0 {
        every_line_is_done_or_still_waiting(entries.drop_last(), position);
        let waiting = entries.drop_last().filter(still_playing(position));
        let done = entries.drop_last().filter(played_out(position));
        assert forall|i: int| 0 <= i < entries.filter(still_playing(position)).len()
            implies #[trigger] entries.filter(still_playing(position))[i].0 > position by {
            if i < waiting.len() {
                assert(waiting[i].0 > position);
            }
        }
        assert forall|i: int| 0 <= i < entries.filter(played_out(position)).len()
            implies #[trigger] entries.filter(played_out(position))[i].0 <= position by {
            if i < done.len() {
                assert(done[i].0 <= position);
            }
        }
    }
}

/// Why a spoken line could not start.
#[derive(Clone, Copy, Debug, PartialEq, Eq, Structural)]
pub enum SpeakError {
    /// The mixer refused the line.
    Mixer(MixerError),
    /// 64 lines already wait for their completion.
    CompletionsFull,
}

/// Starts spoken line `id` at mixer frame `frame` for the dialogue request
/// with `ticket`: the mixer speaks the line, and the request completes once
/// the device has played the line's last frame. The line's clip holds
/// `samples` interleaved samples of `channels` channels recorded at `rate`.
pub fn speak(
    mixer: &mut Mixer,
    catalog: &Catalog,
    completions: &mut Completions,
    id: u32,
    samples: usize,
    channels: usize,
    rate: u32,
    frame: u64,
    ticket: u64,
) -> (r: Result<(), SpeakError>)
    requires
        channels > 0,
        rate > 0,
        (samples / channels) * RATE + rate <= u64::MAX,
        frame + clip_frames(samples as int, channels as int, rate as int) <= u64::MAX,
    ensures
        model(*final(mixer)) == step(model(*old(mixer)), catalog_model(*catalog), AudioCommand::Voice(id)).0,
        match step(model(*old(mixer)), catalog_model(*catalog), AudioCommand::Voice(id)).1 {
            Err(e) => r == Err::<(), SpeakError>(SpeakError::Mixer(e)) && final(completions).entries@ == old(
                completions,
            ).entries@,
            Ok(_) => if old(completions).entries@.len() < MAX_WAITING {
                &&& r is Ok
                &&& final(completions).entries@ == old(completions).entries@.push(
                    ((frame + clip_frames(samples as int, channels as int, rate as int)) as u64, ticket),
                )
            } else {
                &&& r == Err::<(), SpeakError>(SpeakError::CompletionsFull)
                &&& final(completions).entries@ == old(completions).entries@
            },
        },
{
    if let Err(e) = mixer.command(catalog, AudioCommand::Voice(id)) {
        return Err(SpeakError::Mixer(e));
    }
    let end = frame + voice_frames(samples, channels, rate);
    if completions.push(end, ticket) {
        Ok(())
    } else {
        Err(SpeakError::CompletionsFull)
    }
}

/// Frames the mixer takes to play `samples` interleaved samples of `channels`
/// channels recorded at `rate`: the clip's frames on the mixer's clock,
/// rounded up.
pub open spec fn clip_frames(samples: int, channels: int, rate: int) -> int {
    ((samples / channels) * RATE + rate - 1) / rate
}

/// How many mixer frames a clip lasts.
pub fn voice_frames(samples: usize, channels: usize, rate: u32) -> (frames: u64)
    requires
        channels > 0,
        rate > 0,
        (samples / channels) * RATE + rate <= u64::MAX,
    ensures
        frames == clip_frames(samples as int, channels as int, rate as int),
{
    let per_channel: u64 = (samples / channels) as u64;
    (per_channel * RATE as u64 + rate as u64 - 1) / rate as u64
}

/// Where mixer frame `frame` of a clip recorded at `rate` falls in the clip of
/// `count` frames: the clip frame before it, the clip frame after it (the last
/// one at the end), and the remainder in units of 1/RATE of a clip frame.
/// `None` once the clip has been played out.
pub fn voice_step(frame: u64, rate: u32, count: u64) -> (step: Option<(u64, u64, u64)>)
    requires
        frame * rate <= u64::MAX,
    ensures
        match step {
            Some((index, following, remainder)) => {
                &&& index == (frame * rate) / (RATE as int)
                &&& index < count
                &&& following == if index + 1 < count { index + 1 } else { index as int }
                &&& remainder == (frame * rate) % (RATE as int)
            },
            None => (frame * rate) / (RATE as int) >= count,
        },
{
    let position: u64 = frame * rate as u64;
    let index = position / RATE as u64;
    if index >= count {
        return None;
    }
    let following = if index + 1 < count { index + 1 } else { index };
    Some((index, following, position % RATE as u64))
}

} // verus!
