//! Offline capture of the classroom event: the capture settings and their
//! limits, when the capture starts and stops, and the director that reads
//! dialogue pages once they have been fully shown for two seconds.
use vstd::prelude::*;
use crate::mixer::RATE;

verus! {

/// Video frames per second; one game update per saved frame.
pub const FPS: u32 = 60;

/// The longest capture, in video frames: 600 seconds.
pub const MAX_CAPTURE_FRAMES: u32 = 36000;

/// The latest diagnostic start tick.
pub const MAX_START_TICK: u32 = 20000;

/// Updates a readable dialogue page is shown before the director reads on.
pub const READING_HOLD: u32 = 120;

/// Settings of an event capture.
#[derive(Clone, Debug, PartialEq, Eq)]
pub struct ClassroomShowcase {
    pub samples: u32,
    /// Physical output size; quality presets retain the same 16:9 framing.
    pub resolution: [u32; 2],
    /// A video-frame budget, independent of how long rendering takes.
    pub max_frames: Option<u32>,
    /// Skip this many event frames using the same dialogue timing as capture.
    pub from_frame: u32,
    /// Optional absolute VM tick for diagnosing a later shot.
    pub start_tick: Option<u32>,
    /// Walk the real script and report its extent without starting a renderer.
    pub plan_only: bool,
    pub pathtracing: bool,
    pub strong_smaa: bool,
    pub audio: bool,
}

impl Default for ClassroomShowcase {
    fn default() -> (s: Self)
        ensures
            s.samples == 256,
            s.resolution@ == seq![1920u32, 1080u32],
            s.max_frames is None,
            s.from_frame == 0,
            s.start_tick is None,
            !s.plan_only,
            s.pathtracing,
            s.strong_smaa,
            s.audio,
    {
        let s = ClassroomShowcase {
            samples: 256,
            resolution: [1920, 1080],
            max_frames: None,
            from_frame: 0,
            start_tick: None,
            plan_only: false,
            pathtracing: true,
            strong_smaa: true,
            audio: true,
        };
        assert(s.resolution@ =~= seq![1920u32, 1080u32]);
        s
    }
}

/// Why capture settings are refused.
#[derive(Clone, Copy, Debug, PartialEq, Eq, Structural)]
pub enum ShowcaseError {
    /// Lighting samples outside 1–65536.
    Samples,
    /// Not 640x360, 1280x720, 1920x1080 or 3840x2160.
    Resolution,
    /// A frame budget outside 1–36000.
    Duration,
    /// A diagnostic start tick after 20000.
    StartTick,
    /// An event offset after 36000 frames.
    FromFrame,
    /// An event offset together with a diagnostic start tick.
    OffsetWithStartTick,
    /// The script did not hand control to Lloyd within 600 seconds.
    NoHandoff,
    /// The requested offset lies past Lloyd's control handoff.
    PastHandoff,
}

/// Whether `r` is one of the four capture resolutions.
pub open spec fn supported_resolution(r: Seq<u32>) -> bool {
    ||| r == seq![640u32, 360u32]
    ||| r == seq![1280u32, 720u32]
    ||| r == seq![1920u32, 1080u32]
    ||| r == seq![3840u32, 2160u32]
}

/// The first problem of settings `s`, in the order they are checked.
pub open spec fn settings_error(s: ClassroomShowcase) -> Option<ShowcaseError> {
    if !(1 <= s.samples <= 65536) {
        Some(ShowcaseError::Samples)
    } else if !supported_resolution(s.resolution@) {
        Some(ShowcaseError::Resolution)
    } else if s.max_frames matches Some(f) && !(1 <= f <= MAX_CAPTURE_FRAMES) {
        Some(ShowcaseError::Duration)
    } else if s.start_tick matches Some(t) && t > MAX_START_TICK {
        Some(ShowcaseError::StartTick)
    } else if s.from_frame > MAX_CAPTURE_FRAMES {
        Some(ShowcaseError::FromFrame)
    } else if s.from_frame != 0 && s.start_tick is Some {
        Some(ShowcaseError::OffsetWithStartTick)
    } else {
        None
    }
}

/// What the capture reads of the field session.
#[derive(Clone, Copy, Debug, PartialEq, Eq)]
pub struct ShowcaseWorld {
    /// The field camera has been set up.
    pub field_camera: bool,
    /// Lloyd (actor 1) is present.
    pub lloyd_present: bool,
    /// The opening movie was requested and has finished.
    pub movie_finished: bool,
    /// A movie still blocks the field.
    pub blocked_by_movie: bool,
    /// The VM tick.
    pub tick: u32,
    /// The player has control, and controls Lloyd.
    pub lloyd_controlled: bool,
}

/// Why a capture ends.
#[derive(Clone, Copy, Debug, PartialEq, Eq, Structural)]
pub enum StopReason {
    /// The event handed control of Lloyd to the player.
    LloydControl,
    /// The frame budget has been saved.
    DurationLimit,
}

impl StopReason {
    /// The reason as it is recorded in a capture summary.
    pub fn name(self) -> (s: &'static str)
        ensures
            s@ == match self {
                StopReason::LloydControl => "lloyd_control"@,
                StopReason::DurationLimit => "duration_limit"@,
            },
    {
        match self {
            StopReason::LloydControl => "lloyd_control",
            StopReason::DurationLimit => "duration_limit",
        }
    }
}

/// What a plan does after a frame: whether the frame is a milestone, and the
/// reason to stop after it, if any.
#[derive(Clone, Copy, Debug, PartialEq, Eq, Structural)]
pub struct PlanStep {
    pub milestone: bool,
    pub stop: Option<StopReason>,
}

/// The first PCM frame of game tick `tick`.
pub open spec fn spec_audio_frame(tick: int) -> int {
    tick * RATE / FPS as int
}

/// The first PCM frame of game tick `tick`.
pub fn audio_frame(tick: u32) -> (frame: u64)
    ensures
        frame == spec_audio_frame(tick as int),
{
    tick as u64 * RATE as u64 / FPS as u64
}

impl ClassroomShowcase {
    /// Checks the settings, reporting the first problem.
    pub fn validate(&self) -> (r: Result<(), ShowcaseError>)
        ensures
            match settings_error(*self) {
                Some(e) => r == Err::<(), ShowcaseError>(e),
                None => r is Ok,
            },
    {
        if !(1 <= self.samples && self.samples <= 65536) {
            return Err(ShowcaseError::Samples);
        }
        let w = self.resolution[0];
        let h = self.resolution[1];
        proof {
            assert(self.resolution@ =~= seq![w, h]);
        }
        if !((w == 640 && h == 360) || (w == 1280 && h == 720) || (w == 1920 && h == 1080) || (w == 3840
            && h == 2160)) {
            proof {
                assert(seq![w, h][0] == w && seq![w, h][1] == h);
            }
            return Err(ShowcaseError::Resolution);
        }
        if let Some(f) = self.max_frames {
            if !(1 <= f && f <= MAX_CAPTURE_FRAMES) {
                return Err(ShowcaseError::Duration);
            }
        }
        if let Some(t) = self.start_tick {
            if t > MAX_START_TICK {
                return Err(ShowcaseError::StartTick);
            }
        }
        if self.from_frame > MAX_CAPTURE_FRAMES {
            return Err(ShowcaseError::FromFrame);
        }
        if self.from_frame != 0 && self.start_tick.is_some() {
            return Err(ShowcaseError::OffsetWithStartTick);
        }
        Ok(())
    }

    /// Whether the event has reached the first frame to capture: the field
    /// camera and Lloyd are there, the opening movie has finished and no
    /// longer blocks the field, and the diagnostic start tick, if any, has
    /// come.
    pub fn reached_start(&self, world: &ShowcaseWorld) -> (r: bool)
        ensures
            r == (world.field_camera && world.lloyd_present && world.movie_finished && !world.blocked_by_movie
                && (self.start_tick matches Some(t) ==> world.tick >= t)),
    {
        world.field_camera && world.lloyd_present && world.movie_finished && !world.blocked_by_movie
            && match self.start_tick {
            Some(t) => world.tick >= t,
            None => true,
        }
    }

    /// Why the capture stops once `saved` frames are saved: control of Lloyd
    /// passing to the player comes first, then the frame budget.
    pub fn stop_reason(&self, world: &ShowcaseWorld, saved: u32) -> (r: Option<StopReason>)
        ensures
            r == if world.lloyd_controlled {
                Some(StopReason::LloydControl)
            } else if self.max_frames matches Some(limit) && saved >= limit {
                Some(StopReason::DurationLimit)
            } else {
                None
            },
    {
        if world.lloyd_controlled {
            Some(StopReason::LloydControl)
        } else {
            match self.max_frames {
                Some(limit) if saved >= limit => Some(StopReason::DurationLimit),
                _ => None,
            }
        }
    }

    /// Whether seeking to the capture offset goes on after `frame` skipped
    /// frames: it is done at the offset, and it fails if the event handed
    /// Lloyd to the player before the offset.
    pub fn seek_step(&self, frame: u32, world: &ShowcaseWorld) -> (r: Result<bool, ShowcaseError>)
        ensures
            r == if frame >= self.from_frame {
                Ok::<bool, ShowcaseError>(false)
            } else if world.lloyd_controlled {
                Err(ShowcaseError::PastHandoff)
            } else {
                Ok(true)
            },
    {
        if frame >= self.from_frame {
            Ok(false)
        } else if world.lloyd_controlled {
            Err(ShowcaseError::PastHandoff)
        } else {
            Ok(true)
        }
    }

    /// The plan's decision for frame `frame`: a milestone once per second and
    /// at the last frame, and the reason to stop after it. A plan that has
    /// not stopped within 600 seconds fails.
    pub fn plan_step(&self, frame: u32, world: &ShowcaseWorld) -> (r: Result<PlanStep, ShowcaseError>)
        ensures
            match r {
                Ok(step) => {
                    &&& frame < MAX_CAPTURE_FRAMES
                    &&& step.stop == (if world.lloyd_controlled {
                        Some(StopReason::LloydControl)
                    } else if self.max_frames matches Some(limit) && frame + 1 >= limit {
                        Some(StopReason::DurationLimit)
                    } else {
                        None
                    })
                    &&& step.milestone == (frame % FPS == 0 || step.stop is Some)
                },
                Err(e) => e == ShowcaseError::NoHandoff && frame >= MAX_CAPTURE_FRAMES,
            },
    {
        if frame >= MAX_CAPTURE_FRAMES {
            return Err(ShowcaseError::NoHandoff);
        }
        let stop = self.stop_reason(world, frame + 1);
        Ok(PlanStep { milestone: frame % FPS == 0 || stop.is_some(), stop })
    }
}

/// How many render frames a captured frame must settle before its lighting
/// starts: twenty for the first, one afterwards.
pub fn settle_frames(frame: u32) -> (n: u32)
    ensures
        n == if frame == 0 { 20u32 } else { 1u32 },
{
    if frame == 0 { 20 } else { 1 }
}

/// Whether lighting progress is worth reporting: at least 1/128 of the
/// samples, and at least 32, since the last report.
pub fn report_progress(completed: u32, reported: u32, samples: u32) -> (r: bool)
    ensures
        r == (completed as int >= reported as int + if samples / 128 > 32 { samples as int / 128 } else { 32 }),
{
    let step: u32 = if samples / 128 > 32 { samples / 128 } else { 32 };
    completed as u64 >= reported as u64 + step as u64
}

/// Whether a captured frame has waited too long for its lighting: more than
/// 300 seconds plus 30 seconds per sample.
pub fn capture_timed_out(elapsed_secs: u64, samples: u32) -> (r: bool)
    ensures
        r == (elapsed_secs > 300 + samples as int * 30),
{
    elapsed_secs > 300 + samples as u64 * 30
}

/// What the director reads of a dialogue page.
#[derive(Clone, Copy, Debug, PartialEq, Eq)]
pub struct PageState {
    /// The dialogue operation showing the page, and the page's number.
    pub operation: u64,
    pub page: usize,
    pub closed: bool,
    pub persistent: bool,
    pub pending: bool,
    pub fully_revealed: bool,
    pub accepts_input: bool,
    pub voice_finished: bool,
}

/// Whether a page waits to be read on: open, not persistent, pending, fully
/// shown, accepting input and done speaking.
pub open spec fn readable(p: PageState) -> bool {
    !p.closed && !p.persistent && p.pending && p.fully_revealed && p.accepts_input && p.voice_finished
}

/// When page (`operation`, `page`) was first seen readable, if it was.
pub open spec fn since_of(s: Seq<(u64, usize, u32)>, operation: u64, page: usize) -> Option<u32>
    decreases s.len(),
{
    if s.len() == 0 {
        None
    } else {
        match since_of(s.drop_last(), operation, page) {
            Some(v) => Some(v),
            None => if s.last().0 == operation && s.last().1 == page {
                Some(s.last().2)
            } else {
                None
            },
        }
    }
}

/// The director's reading clock after looking at `pages` in order at `tick`,
/// and whether it reads on: the first readable page that was first seen at
/// least 120 updates ago is read; readable pages seen for the first time
/// start their clock at `tick`.
pub open spec fn read_on(s: Seq<(u64, usize, u32)>, pages: Seq<PageState>, tick: u32) -> (Seq<(u64, usize, u32)>, bool)
    decreases pages.len(),
{
    if pages.len() == 0 {
        (s, false)
    } else {
        let p = pages[0];
        if !readable(p) {
            read_on(s, pages.drop_first(), tick)
        } else {
            match since_of(s, p.operation, p.page) {
                Some(v) => if tick - v >= READING_HOLD {
                    (s, true)
                } else {
                    read_on(s, pages.drop_first(), tick)
                },
                None => read_on(s.push((p.operation, p.page, tick)), pages.drop_first(), tick),
            }
        }
    }
}

/// Whether every clock started at or before `tick`.
pub open spec fn started_by(s: Seq<(u64, usize, u32)>, tick: u32) -> bool {
    forall|i: int| 0 <= i < s.len() ==> #[trigger] s[i].2 <= tick
}

proof fn lemma_since_push(s: Seq<(u64, usize, u32)>, e: (u64, usize, u32), operation: u64, page: usize)
    ensures
        since_of(s.push(e), operation, page) == match since_of(s, operation, page) {
            Some(v) => Some(v),
            None => if e.0 == operation && e.1 == page { Some(e.2) } else { None },
        },
{
    assert(s.push(e).drop_last() =~= s);
}

proof fn lemma_since_bounded(s: Seq<(u64, usize, u32)>, tick: u32, operation: u64, page: usize)
    requires
        started_by(s, tick),
    ensures
        since_of(s, operation, page) matches Some(v) ==> v <= tick,
    decreases s.len(),
{
    if s.len() > 0 {
        lemma_since_bounded(s.drop_last(), tick, operation, page);
        assert(s.last() == s[s.len() - 1]);
    }
}

/// The director of a capture: when each readable dialogue page was first seen.
pub struct Director {
    pub ready_since: Vec<(u64, usize, u32)>,
}

impl Director {
    pub fn new() -> (d: Self)
        ensures
            d.ready_since@ == Seq::<(u64, usize, u32)>::empty(),
    {
        Director { ready_since: Vec::new() }
    }

    fn since(&self, operation: u64, page: usize) -> (r: Option<u32>)
        ensures
            r == since_of(self.ready_since@, operation, page),
    {
        let ghost s = self.ready_since@;
        let mut i: usize = 0;
        while i < self.ready_since.len()
            invariant
                s == self.ready_since@,
                i <= s.len(),
                since_of(s.subrange(0, i as int), operation, page) is None,
            decreases s.len() - i,
        {
            let (o, p, t) = self.ready_since[i];
            proof {
                lemma_since_push(s.subrange(0, i as int), s[i as int], operation, page);
                assert(s.subrange(0, i + 1) =~= s.subrange(0, i as int).push(s[i as int]));
            }
            if o == operation && p == page {
                proof {
                    lemma_since_prefix(s, i + 1);
                }
                return Some(t);
            }
            i = i + 1;
        }
        proof {
            assert(s.subrange(0, s.len() as int) =~= s);
        }
        None
    }

    /// Looks at the dialogue `pages` at `tick` and decides whether to read on,
    /// starting the clock of each readable page seen for the first time.
    pub fn interact(&mut self, pages: &Vec<PageState>, tick: u32) -> (r: bool)
        requires
            started_by(old(self).ready_since@, tick),
        ensures
            (final(self).ready_since@, r) == read_on(old(self).ready_since@, pages@, tick),
            started_by(final(self).ready_since@, tick),
    {
        let ghost goal = read_on(self.ready_since@, pages@, tick);
        proof {
            assert(pages@.subrange(0, pages@.len() as int) =~= pages@);
        }
        let mut i: usize = 0;
        while i < pages.len()
            invariant
                i <= pages@.len(),
                started_by(self.ready_since@, tick),
                goal == read_on(old(self).ready_since@, pages@, tick),
                read_on(self.ready_since@, pages@.subrange(i as int, pages@.len() as int), tick) == goal,
            decreases pages@.len() - i,
        {
            let p = pages[i];
            let ghost rest = pages@.subrange(i as int, pages@.len() as int);
            proof {
                assert(rest[0] == p);
                assert(rest.drop_first() =~= pages@.subrange(i + 1, pages@.len() as int));
            }
            if !p.closed && !p.persistent && p.pending && p.fully_revealed && p.accepts_input && p.voice_finished {
                match self.since(p.operation, p.page) {
                    Some(v) => {
                        proof {
                            lemma_since_bounded(self.ready_since@, tick, p.operation, p.page);
                        }
                        if tick - v >= READING_HOLD {
                            return true;
                        }
                    },
                    None => {
                        self.ready_since.push((p.operation, p.page, tick));
                    },
                }
            }
            i = i + 1;
        }
        proof {
            assert(pages@.subrange(pages@.len() as int, pages@.len() as int) =~= Seq::<PageState>::empty());
        }
        false
    }
}

proof fn lemma_since_prefix(s: Seq<(u64, usize, u32)>, n: int)
    requires
        0 <= n <= s.len(),
        since_of(s.subrange(0, n), s[n - 1].0, s[n - 1].1) is Some,
    ensures
        since_of(s, s[n - 1].0, s[n - 1].1) == since_of(s.subrange(0, n), s[n - 1].0, s[n - 1].1),
    decreases s.len() - n,
{
    if n < s.len() {
        lemma_since_prefix(s.drop_last(), n);
        assert(s.drop_last().subrange(0, n) =~= s.subrange(0, n));
    } else {
        assert(s.subrange(0, n) =~= s);
    }
}

/// The director reads on only for a page that was readable and whose clock
/// started at least 120 updates ago; a page seen for the first time is never
/// read on at once.
pub proof fn pages_are_read_only_after_the_hold(s: Seq<(u64, usize, u32)>, pages: Seq<PageState>, tick: u32)
    requires
        read_on(s, pages, tick).1,
    ensures
        exists|i: int|
            0 <= i < pages.len() && readable(#[trigger] pages[i]) && (since_of(s, pages[i].operation, pages[i].page) matches Some(
                v,
            ) && tick - v >= READING_HOLD),
    decreases pages.len(),
{
    let p = pages[0];
    if !readable(p) {
        pages_are_read_only_after_the_hold(s, pages.drop_first(), tick);
        let i = choose|i: int|
            0 <= i < pages.drop_first().len() && readable(#[trigger] pages.drop_first()[i]) && (since_of(
                s,
                pages.drop_first()[i].operation,
                pages.drop_first()[i].page,
            ) matches Some(v) && tick - v >= READING_HOLD);
        assert(pages[i + 1] == pages.drop_first()[i]);
    } else {
        match since_of(s, p.operation, p.page) {
            Some(v) => if tick - v >= READING_HOLD {
                assert(readable(pages[0]));
            } else {
                pages_are_read_only_after_the_hold(s, pages.drop_first(), tick);
                let i = choose|i: int|
                    0 <= i < pages.drop_first().len() && readable(#[trigger] pages.drop_first()[i]) && (since_of(
                        s,
                        pages.drop_first()[i].operation,
                        pages.drop_first()[i].page,
                    ) matches Some(v) && tick - v >= READING_HOLD);
                assert(pages[i + 1] == pages.drop_first()[i]);
            },
            None => {
                let t = s.push((p.operation, p.page, tick));
                pages_are_read_only_after_the_hold(t, pages.drop_first(), tick);
                let i = choose|i: int|
                    0 <= i < pages.drop_first().len() && readable(#[trigger] pages.drop_first()[i]) && (since_of(
                        t,
                        pages.drop_first()[i].operation,
                        pages.drop_first()[i].page,
                    ) matches Some(v) && tick - v >= READING_HOLD);
                let q = pages.drop_first()[i];
                lemma_since_push(s, (p.operation, p.page, tick), q.operation, q.page);
                assert(pages[i + 1] == q);
            },
        }
    }
}

/// Pages that cannot be read on are ignored: when every page is closed,
/// persistent, not pending, not fully revealed, not accepting input or still
/// voicing, the director never reads on and starts no clock, whatever the
/// tick. In particular a persistent page is never read on.
pub proof fn unreadable_pages_are_ignored(s: Seq<(u64, usize, u32)>, pages: Seq<PageState>, tick: u32)
    requires
        forall|i: int|
            0 <= i < pages.len() ==> (#[trigger] pages[i]).closed || pages[i].persistent || !pages[i].pending
                || !pages[i].fully_revealed || !pages[i].accepts_input || !pages[i].voice_finished,
    ensures
        read_on(s, pages, tick) == (s, false),
    decreases pages.len(),
{
    if pages.len() > 0 {
        let p = pages[0];
        assert(p.closed || p.persistent || !p.pending || !p.fully_revealed || !p.accepts_input || !p.voice_finished);
        assert forall|i: int| 0 <= i < pages.drop_first().len() implies (#[trigger] pages.drop_first()[i]).closed
            || pages.drop_first()[i].persistent || !pages.drop_first()[i].pending
            || !pages.drop_first()[i].fully_revealed || !pages.drop_first()[i].accepts_input
            || !pages.drop_first()[i].voice_finished by {
            assert(pages.drop_first()[i] == pages[i + 1]);
        }
        unreadable_pages_are_ignored(s, pages.drop_first(), tick);
    }
}

/// A persistent page never makes the director read on: with only persistent
/// pages on screen, `interact` answers no and starts no clock at any tick.
pub proof fn persistent_pages_are_never_read_on(s: Seq<(u64, usize, u32)>, pages: Seq<PageState>, tick: u32)
    requires
        forall|i: int| 0 <= i < pages.len() ==> (#[trigger] pages[i]).persistent,
    ensures
        read_on(s, pages, tick) == (s, false),
{
    unreadable_pages_are_ignored(s, pages, tick);
}

} // verus!
