//! Folding the engine's event stream: progress extraction, error
//! retention, duration probing and metadata collection.
//!
//! The binary front end spawns the engine, converts each streamed event to
//! an [`EngineEvent`] with plain units (milliseconds, thousandths of a
//! frame per second) and hands them here; every decision about the stream
//! is made by the verified functions below. The stream is always drained
//! to its end so the child can terminate cleanly: an error-level log line
//! is retained (last one wins) but never aborts the stream early.

use vstd::prelude::*;

use crate::error::VxError;
use crate::utils::{parse_time_core, time_ms};

verus! {

/// Severity the engine assigns a log line.
#[derive(Clone, Copy, PartialEq, Eq, Structural, Debug)]
pub enum LogLevel {
    Info,
    Warning,
    Error,
    Fatal,
    Unknown,
}

/// What one reported input stream carries.
#[derive(Clone, Copy, PartialEq, Eq, Structural, Debug)]
pub enum StreamKind {
    Video { width: u32, height: u32, fps_milli: u32 },
    Audio,
    Other,
}

/// One input stream the engine reported, with its codec format name.
pub struct StreamInfo {
    pub format: String,
    pub kind: StreamKind,
}

/// One event of the engine's output stream, reduced to plain values.
pub enum EngineEvent {
    /// A progress update carrying the engine's unparsed timestamp text.
    Progress(String),
    /// A log line with its severity.
    Log(LogLevel, String),
    /// The terminal marker of the stream.
    Done,
    /// An explicit duration report, in milliseconds.
    ParsedDuration(u64),
    /// An input was parsed, possibly with a duration in milliseconds.
    ParsedInput(Option<u64>),
    /// An input stream was detected.
    ParsedInputStream(StreamInfo),
    /// Anything the commands here do not react to.
    Other,
}

pub open spec fn is_error_log(e: EngineEvent) -> bool {
    e matches EngineEvent::Log(l, _) && (l == LogLevel::Error || l == LogLevel::Fatal)
}

pub open spec fn log_text(e: EngineEvent) -> Seq<char> {
    match e {
        EngineEvent::Log(_, m) => m@,
        _ => Seq::empty(),
    }
}

/// The text of the last error- or fatal-level log line, if any.
pub open spec fn last_error_text(evs: Seq<EngineEvent>) -> Option<Seq<char>>
    decreases evs.len(),
{
    if evs.len() == 0 {
        None
    } else if is_error_log(evs.last()) {
        Some(log_text(evs.last()))
    } else {
        last_error_text(evs.drop_last())
    }
}

/// Folding state while one invocation's stream is drained.
pub struct RunState {
    pub last_error: Option<String>,
}

impl RunState {
    pub open spec fn error_view(&self) -> Option<Seq<char>> {
        match self.last_error {
            Some(m) => Some(m@),
            None => None,
        }
    }

    /// State before any event has been seen.
    pub fn new() -> (r: RunState)
        ensures
            r.error_view() is None,
    {
        RunState { last_error: None }
    }
}

/// What the caller should do to its progress display after one event.
#[derive(Clone, Copy, PartialEq, Eq, Structural, Debug)]
pub enum DisplayAction {
    /// Move the bar to this absolute position, in milliseconds.
    Update(u64),
    /// Clear the display: the stream reported completion.
    Finish,
    /// Leave the display alone.
    Nothing,
}

/// Classifies one engine event: an error- or fatal-level log line is
/// retained (last one wins), a progress timestamp that parses moves the
/// display, one that does not is silently ignored, and the terminal
/// marker clears the display.
pub fn run_step(state: RunState, event: &EngineEvent) -> (r: (RunState, DisplayAction))
    ensures
        r.0.error_view() == if is_error_log(*event) {
            Some(log_text(*event))
        } else {
            state.error_view()
        },
        match r.1 {
            DisplayAction::Update(ms) => *event matches EngineEvent::Progress(t) && time_ms(t@)
                == Some(ms as int),
            DisplayAction::Finish => *event is Done,
            DisplayAction::Nothing => !(*event is Done) && (*event matches EngineEvent::Progress(
                t,
            ) ==> (time_ms(t@) is None || time_ms(t@).unwrap() > u64::MAX)),
        },
{
    match event {
        EngineEvent::Progress(t) => {
            match parse_time_core(t.as_str()) {
                Some(ms) => (state, DisplayAction::Update(ms)),
                None => (state, DisplayAction::Nothing),
            }
        },
        EngineEvent::Log(level, msg) => {
            let keep = match level {
                LogLevel::Error => true,
                LogLevel::Fatal => true,
                _ => false,
            };
            if keep {
                (RunState { last_error: Some(msg.clone()) }, DisplayAction::Nothing)
            } else {
                (state, DisplayAction::Nothing)
            }
        },
        EngineEvent::Done => (state, DisplayAction::Finish),
        _ => (state, DisplayAction::Nothing),
    }
}

/// After the stream has ended: fails with the retained error text,
/// succeeds otherwise.
pub fn run_outcome(state: RunState) -> (r: Result<(), VxError>)
    ensures
        match r {
            Ok(_) => state.error_view() is None,
            Err(e) => e matches VxError::FfmpegError(m) && state.error_view() == Some(m@),
        },
{
    match state.last_error {
        None => Ok(()),
        Some(m) => Err(VxError::FfmpegError(m)),
    }
}

/// Drains a whole event stream: every event is consumed, and the call
/// fails exactly when some error- or fatal-level log line was seen, with
/// the last one's text.
pub fn drain_events(events: &Vec<EngineEvent>) -> (r: Result<(), VxError>)
    ensures
        match r {
            Ok(_) => last_error_text(events@) is None,
            Err(e) => e matches VxError::FfmpegError(m) && last_error_text(events@) == Some(m@),
        },
{
    let mut state = RunState::new();
    let n = events.len();
    let mut i: usize = 0;
    while i < n
        invariant
            n == events@.len(),
            i <= n,
            state.error_view() == last_error_text(events@.take(i as int)),
        decreases n - i,
    {
        let ev = &events[i];
        let stepped = run_step(state, ev);
        state = stepped.0;
        proof {
            assert(events@.take(i as int + 1).drop_last() =~= events@.take(i as int));
            assert(events@.take(i as int + 1).last() == events@[i as int]);
        }
        i = i + 1;
    }
    proof {
        assert(events@.take(n as int) =~= events@);
    }
    run_outcome(state)
}

/// Parses an engine progress timestamp (`H:MM:SS`, `MM:SS` or bare
/// seconds) to milliseconds; a string of any other shape is `None`, which
/// callers ignore rather than fail on.
pub fn parse_time_to_ms(time_str: &str) -> (r: Option<u64>)
    ensures
        match r {
            Some(v) => time_ms(time_str@) == Some(v as int),
            None => time_ms(time_str@) is None || time_ms(time_str@).unwrap() > u64::MAX,
        },
{
    parse_time_core(time_str)
}

/// The last explicit duration report in the stream, if any.
pub open spec fn last_explicit_duration(evs: Seq<EngineEvent>) -> Option<u64>
    decreases evs.len(),
{
    if evs.len() == 0 {
        None
    } else {
        match evs.last() {
            EngineEvent::ParsedDuration(d) => Some(d),
            _ => last_explicit_duration(evs.drop_last()),
        }
    }
}

/// The first input event that carries a duration, if any.
pub open spec fn first_input_duration(evs: Seq<EngineEvent>) -> Option<u64>
    decreases evs.len(),
{
    if evs.len() == 0 {
        None
    } else {
        match evs.first() {
            EngineEvent::ParsedInput(Some(d)) => Some(d),
            _ => first_input_duration(evs.drop_first()),
        }
    }
}

/// The duration a probe reports: the last explicit duration event wins;
/// failing one, the first input event that carries a duration; else zero.
pub open spec fn duration_of_events(evs: Seq<EngineEvent>) -> u64 {
    match last_explicit_duration(evs) {
        Some(d) => d,
        None => match first_input_duration(evs) {
            Some(d) => d,
            None => 0,
        },
    }
}

proof fn lemma_first_input_push(evs: Seq<EngineEvent>, e: EngineEvent)
    ensures
        first_input_duration(evs.push(e)) == (match first_input_duration(evs) {
            Some(d) => Some(d),
            None => match e {
                EngineEvent::ParsedInput(Some(d)) => Some(d),
                _ => None::<u64>,
            },
        }),
    decreases evs.len(),
{
    if evs.len() == 0 {
        assert(evs.push(e).first() == e);
        assert(evs.push(e).drop_first() =~= Seq::<EngineEvent>::empty());
        assert(first_input_duration(Seq::<EngineEvent>::empty()) is None);
        assert(first_input_duration(evs) is None);
    } else {
        assert(evs.push(e).first() == evs.first());
        assert(evs.push(e).drop_first() =~= evs.drop_first().push(e));
        lemma_first_input_push(evs.drop_first(), e);
    }
}

/// Folds a probe's event stream to the reported duration in milliseconds.
pub fn duration_from_events(events: &Vec<EngineEvent>) -> (r: u64)
    ensures
        r == duration_of_events(events@),
{
    let mut pd: Option<u64> = None;
    let mut pi: Option<u64> = None;
    let n = events.len();
    let mut i: usize = 0;
    while i < n
        invariant
            n == events@.len(),
            i <= n,
            pd == last_explicit_duration(events@.take(i as int)),
            pi == first_input_duration(events@.take(i as int)),
        decreases n - i,
    {
        let ev = &events[i];
        proof {
            assert(events@.take(i as int + 1).drop_last() =~= events@.take(i as int));
            assert(events@.take(i as int + 1).last() == events@[i as int]);
            assert(events@.take(i as int + 1) =~= events@.take(i as int).push(events@[i as int]));
            lemma_first_input_push(events@.take(i as int), events@[i as int]);
        }
        match ev {
            EngineEvent::ParsedDuration(d) => {
                pd = Some(*d);
            },
            EngineEvent::ParsedInput(opt) => {
                if pi.is_none() {
                    match opt {
                        Some(d) => {
                            pi = Some(*d);
                        },
                        None => {},
                    }
                }
            },
            _ => {},
        }
        i = i + 1;
    }
    proof {
        assert(events@.take(n as int) =~= events@);
    }
    match pd {
        Some(d) => d,
        None => match pi {
            Some(d) => d,
            None => 0,
        },
    }
}

/// Metadata of one media file, in plain units: milliseconds, pixels,
/// thousandths of a frame per second, bytes, bits per second.
pub struct VideoInfo {
    pub duration_ms: u64,
    pub width: u32,
    pub height: u32,
    pub fps_milli: u32,
    pub video_codec: String,
    pub audio_codec: Option<String>,
    pub file_size: u64,
    pub bitrate: u64,
}

pub open spec fn is_video_kind(k: StreamKind) -> bool {
    k matches StreamKind::Video { .. }
}

pub open spec fn video_width(k: StreamKind) -> u32 {
    match k {
        StreamKind::Video { width, .. } => width,
        _ => 0,
    }
}

pub open spec fn video_height(k: StreamKind) -> u32 {
    match k {
        StreamKind::Video { height, .. } => height,
        _ => 0,
    }
}

pub open spec fn video_fps_milli(k: StreamKind) -> u32 {
    match k {
        StreamKind::Video { fps_milli, .. } => fps_milli,
        _ => 0,
    }
}

/// The first detected video stream, if any.
pub open spec fn first_video_stream(evs: Seq<EngineEvent>) -> Option<StreamInfo>
    decreases evs.len(),
{
    if evs.len() == 0 {
        None
    } else {
        match evs.first() {
            EngineEvent::ParsedInputStream(s) => if is_video_kind(s.kind) {
                Some(s)
            } else {
                first_video_stream(evs.drop_first())
            },
            _ => first_video_stream(evs.drop_first()),
        }
    }
}

/// The first detected audio stream, if any.
pub open spec fn first_audio_stream(evs: Seq<EngineEvent>) -> Option<StreamInfo>
    decreases evs.len(),
{
    if evs.len() == 0 {
        None
    } else {
        match evs.first() {
            EngineEvent::ParsedInputStream(s) => if s.kind is Audio {
                Some(s)
            } else {
                first_audio_stream(evs.drop_first())
            },
            _ => first_audio_stream(evs.drop_first()),
        }
    }
}

proof fn lemma_first_video_push(evs: Seq<EngineEvent>, e: EngineEvent)
    ensures
        first_video_stream(evs.push(e)) == (match first_video_stream(evs) {
            Some(s) => Some(s),
            None => match e {
                EngineEvent::ParsedInputStream(s) => if is_video_kind(s.kind) {
                    Some(s)
                } else {
                    None::<StreamInfo>
                },
                _ => None::<StreamInfo>,
            },
        }),
    decreases evs.len(),
{
    if evs.len() == 0 {
        assert(evs.push(e).first() == e);
        assert(evs.push(e).drop_first() =~= Seq::<EngineEvent>::empty());
        assert(first_video_stream(Seq::<EngineEvent>::empty()) is None);
        assert(first_video_stream(evs) is None);
    } else {
        assert(evs.push(e).first() == evs.first());
        assert(evs.push(e).drop_first() =~= evs.drop_first().push(e));
        lemma_first_video_push(evs.drop_first(), e);
    }
}

proof fn lemma_first_audio_push(evs: Seq<EngineEvent>, e: EngineEvent)
    ensures
        first_audio_stream(evs.push(e)) == (match first_audio_stream(evs) {
            Some(s) => Some(s),
            None => match e {
                EngineEvent::ParsedInputStream(s) => if s.kind is Audio {
                    Some(s)
                } else {
                    None::<StreamInfo>
                },
                _ => None::<StreamInfo>,
            },
        }),
    decreases evs.len(),
{
    if evs.len() == 0 {
        assert(evs.push(e).first() == e);
        assert(evs.push(e).drop_first() =~= Seq::<EngineEvent>::empty());
        assert(first_audio_stream(Seq::<EngineEvent>::empty()) is None);
        assert(first_audio_stream(evs) is None);
    } else {
        assert(evs.push(e).first() == evs.first());
        assert(evs.push(e).drop_first() =~= evs.drop_first().push(e));
        lemma_first_audio_push(evs.drop_first(), e);
    }
}

/// Bit rate derived from size and duration: zero when the duration is
/// zero, saturating at `u64::MAX`.
pub open spec fn bitrate_of(file_size: int, duration_ms: int) -> int {
    if duration_ms == 0 {
        0
    } else {
        let b = file_size * 8000 / duration_ms;
        if b > u64::MAX as int {
            u64::MAX as int
        } else {
            b
        }
    }
}

/// Computes the bit rate from a byte count and a duration in
/// milliseconds.
pub fn compute_bitrate(file_size: u64, duration_ms: u64) -> (r: u64)
    ensures
        r as int == bitrate_of(file_size as int, duration_ms as int),
{
    if duration_ms == 0 {
        return 0;
    }
    let b: u128 = (file_size as u128) * 8000 / (duration_ms as u128);
    if b > u64::MAX as u128 {
        u64::MAX
    } else {
        b as u64
    }
}

/// Folds a probe's event stream plus the file's size on disk into the
/// file's metadata: the reported duration, the first detected video
/// stream's geometry and codec, the first detected audio stream's codec,
/// and the derived bit rate.
pub fn video_info_from_events(events: &Vec<EngineEvent>, file_size: u64) -> (r: VideoInfo)
    ensures
        r.duration_ms == duration_of_events(events@),
        r.file_size == file_size,
        r.bitrate as int == bitrate_of(file_size as int, duration_of_events(events@) as int),
        match first_video_stream(events@) {
            Some(s) => r.width == video_width(s.kind) && r.height == video_height(s.kind)
                && r.fps_milli == video_fps_milli(s.kind) && r.video_codec@ == s.format@,
            None => r.width == 0 && r.height == 0 && r.fps_milli == 0 && r.video_codec@
                == Seq::<char>::empty(),
        },
        match first_audio_stream(events@) {
            Some(s) => r.audio_codec matches Some(a) && a@ == s.format@,
            None => r.audio_codec is None,
        },
{
    let duration_ms = duration_from_events(events);
    let mut width: u32 = 0;
    let mut height: u32 = 0;
    let mut fps_milli: u32 = 0;
    let mut video_codec = String::new();
    let mut have_video = false;
    let mut audio_codec: Option<String> = None;
    let n = events.len();
    let mut i: usize = 0;
    while i < n
        invariant
            n == events@.len(),
            i <= n,
            match first_video_stream(events@.take(i as int)) {
                Some(s) => have_video && width == video_width(s.kind) && height == video_height(
                    s.kind,
                ) && fps_milli == video_fps_milli(s.kind) && video_codec@ == s.format@,
                None => !have_video && width == 0 && height == 0 && fps_milli == 0 && video_codec@
                    == Seq::<char>::empty(),
            },
            match first_audio_stream(events@.take(i as int)) {
                Some(s) => audio_codec matches Some(a) && a@ == s.format@,
                None => audio_codec is None,
            },
        decreases n - i,
    {
        proof {
            assert(events@.take(i as int + 1) =~= events@.take(i as int).push(events@[i as int]));
            lemma_first_video_push(events@.take(i as int), events@[i as int]);
            lemma_first_audio_push(events@.take(i as int), events@[i as int]);
        }
        let ev = &events[i];
        match ev {
            EngineEvent::ParsedInputStream(s) => {
                match s.kind {
                    StreamKind::Video { width: w, height: h, fps_milli: f } => {
                        if !have_video {
                            width = w;
                            height = h;
                            fps_milli = f;
                            video_codec = s.format.clone();
                            have_video = true;
                        }
                    },
                    StreamKind::Audio => {
                        if audio_codec.is_none() {
                            audio_codec = Some(s.format.clone());
                        }
                    },
                    StreamKind::Other => {},
                }
            },
            _ => {},
        }
        i = i + 1;
    }
    proof {
        assert(events@.take(n as int) =~= events@);
    }
    let bitrate = compute_bitrate(file_size, duration_ms);
    VideoInfo {
        duration_ms,
        width,
        height,
        fps_milli,
        video_codec,
        audio_codec,
        file_size,
        bitrate,
    }
}

} // verus!
