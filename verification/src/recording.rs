//! Recording a meeting: which capture a request asks for, the artifact it
//! creates, how captured audio is cut into chunks for live transcription, and
//! what the live transcript holds.
use vstd::prelude::*;

use crate::artifacts::{max_end, max_end_ms, no_text_message};
use crate::capture::SAMPLE_RATE;
use crate::db::{set_status_spec, set_transcript_spec, Artifact, ArtifactView, Db, DbView};
use crate::error::{app_error, AppError, AppResult};
use crate::import_transcript::{full_text, seg_views, SegmentView, TranscriptSegment};
use crate::platform::HostOs;
use crate::text::{
    contains_seq, contains_text, from_chars, is_blank, join_chars, to_chars, to_lowercase, trim,
    unicode_lowercase, views,
};

verus! {

broadcast use vstd::string::group_string_axioms;

/// What a recording captures.
#[derive(PartialEq, Eq, Structural, Clone, Copy)]
pub enum CaptureMode {
    /// The microphone alone.
    Voice,
    /// What the computer plays, mixed with the microphone.
    SystemAudio,
}

/// What this platform can record.
pub struct RecordingCapabilities {
    pub microphone: bool,
    pub system_audio: bool,
}

/// The microphone everywhere; system audio on macOS and Windows.
pub fn capabilities(os: HostOs) -> (c: RecordingCapabilities)
    ensures
        c.microphone,
        c.system_audio == (os == HostOs::MacOs || os == HostOs::Windows),
{
    RecordingCapabilities {
        microphone: true,
        system_audio: os == HostOs::MacOs || os == HostOs::Windows,
    }
}

/// The capture a request names: `voice` or `microphone`, `system` or
/// `system_audio`.
pub open spec fn mode_spec(source: Seq<char>) -> Result<CaptureMode, Seq<char>> {
    if source == "voice"@ || source == "microphone"@ {
        Ok(CaptureMode::Voice)
    } else if source == "system"@ || source == "system_audio"@ {
        Ok(CaptureMode::SystemAudio)
    } else {
        Err("Choose Microphone or System audio."@)
    }
}

pub fn parse_mode(source: &str) -> (r: AppResult<CaptureMode>)
    ensures
        match (r, mode_spec(source@)) {
            (Ok(m), Ok(w)) => m == w,
            (Err(e), Err(w)) => e.msg() == w,
            _ => false,
        },
{
    let s = to_chars(source);
    if crate::text::chars_are(&s, "voice") || crate::text::chars_are(&s, "microphone") {
        Ok(CaptureMode::Voice)
    } else if crate::text::chars_are(&s, "system") || crate::text::chars_are(&s, "system_audio") {
        Ok(CaptureMode::SystemAudio)
    } else {
        Err(app_error("Choose Microphone or System audio."))
    }
}

/// The source type stored on a recording's artifact.
pub open spec fn source_type_spec(mode: CaptureMode) -> Seq<char> {
    match mode {
        CaptureMode::Voice => "voice"@,
        CaptureMode::SystemAudio => "system"@,
    }
}

pub fn source_type(mode: CaptureMode) -> (s: &'static str)
    ensures
        s@ == source_type_spec(mode),
{
    match mode {
        CaptureMode::Voice => "voice",
        CaptureMode::SystemAudio => "system",
    }
}

/// Whether a recording may start: none is running, the source is known, and
/// system audio only where the platform has it.
pub open spec fn start_check_spec(active: bool, source: Seq<char>, os: HostOs) -> Result<
    CaptureMode,
    Seq<char>,
> {
    if active {
        Err("A recording is already in progress."@)
    } else {
        match mode_spec(source) {
            Err(m) => Err(m),
            Ok(mode) => if mode == CaptureMode::SystemAudio && !(os == HostOs::MacOs || os
                == HostOs::Windows) {
                Err("System audio capture is not available on this platform."@)
            } else {
                Ok(mode)
            },
        }
    }
}

/// Refuses to start a recording while one runs, for an unknown source, or for
/// system audio where the platform has none.
pub fn start_check(active: bool, source: &str, os: HostOs) -> (r: AppResult<CaptureMode>)
    ensures
        match (r, start_check_spec(active, source@, os)) {
            (Ok(m), Ok(w)) => m == w,
            (Err(e), Err(w)) => e.msg() == w,
            _ => false,
        },
{
    if active {
        return Err(app_error("A recording is already in progress."));
    }
    let mode = match parse_mode(source) {
        Ok(m) => m,
        Err(e) => return Err(e),
    };
    if mode == CaptureMode::SystemAudio && !(os == HostOs::MacOs || os == HostOs::Windows) {
        return Err(app_error("System audio capture is not available on this platform."));
    }
    Ok(mode)
}

/// The artifact a recording starts with.
pub open spec fn recording_artifact_spec(
    id: Seq<char>,
    group: Seq<char>,
    mode: CaptureMode,
    created_at: Seq<char>,
) -> ArtifactView {
    ArtifactView {
        id,
        meeting_group_id: group,
        title: match mode {
            CaptureMode::Voice => "Microphone recording"@,
            CaptureMode::SystemAudio => "System audio recording"@,
        },
        source_type: source_type_spec(mode),
        status: "recording"@,
        has_audio: true,
        original_filename: "recording.wav"@,
        error_message: Seq::empty(),
        transcript: Seq::empty(),
        segments_json: "[]"@,
        duration_ms: 0,
        created_at,
        whisper_model: Seq::empty(),
        original_path: Seq::empty(),
    }
}

pub fn recording_artifact(id: String, meeting_group_id: &str, mode: CaptureMode, created_at: String) -> (a: Artifact)
    ensures
        a@ == recording_artifact_spec(id@, meeting_group_id@, mode, created_at@),
{
    let title = match mode {
        CaptureMode::Voice => "Microphone recording",
        CaptureMode::SystemAudio => "System audio recording",
    };
    Artifact {
        id,
        meeting_group_id: meeting_group_id.to_owned(),
        title: title.to_owned(),
        source_type: source_type(mode).to_owned(),
        status: "recording".to_owned(),
        has_audio: true,
        original_filename: "recording.wav".to_owned(),
        error_message: String::new(),
        transcript: String::new(),
        segments_json: "[]".to_owned(),
        duration_ms: 0,
        created_at,
        whisper_model: String::new(),
        original_path: String::new(),
    }
}

/// What the recording panel names as its input: the default microphone's
/// name (or `Microphone` when it cannot be read), or the system mix.
pub open spec fn input_label_spec(mode: CaptureMode, device_name: Option<Seq<char>>) -> Seq<char> {
    match mode {
        CaptureMode::Voice => match device_name {
            Some(n) => n,
            None => "Microphone"@,
        },
        CaptureMode::SystemAudio => "System + mic (what you hear and what you say)"@,
    }
}

pub fn input_label(mode: CaptureMode, device_name: Option<String>) -> (s: String)
    ensures
        s@ == input_label_spec(
            mode,
            match device_name {
                Some(n) => Some(n@),
                None => None,
            },
        ),
{
    match mode {
        CaptureMode::Voice => match device_name {
            Some(n) => n,
            None => "Microphone".to_owned(),
        },
        CaptureMode::SystemAudio => "System + mic (what you hear and what you say)".to_owned(),
    }
}

// ---------------------------------------------------------------------------
// Errors
// ---------------------------------------------------------------------------

/// What the user is told when capture failed, from the error's lowercase text.
pub open spec fn capture_error_spec(lower: Seq<char>, os: HostOs) -> Seq<char> {
    if contains_seq(lower, "no default input"@) || contains_seq(lower, "microphone"@) {
        if os == HostOs::Windows {
            "BellaNote couldn’t use the microphone. Check Settings → Privacy & security → Microphone."@
        } else {
            "BellaNote couldn’t use the microphone. Check System Settings → Privacy & Security."@
        }
    } else if contains_seq(lower, "wasapi"@) || contains_seq(lower, "loopback"@) || contains_seq(
        lower,
        "playback device"@,
    ) || contains_seq(lower, "render"@) {
        "BellaNote couldn’t capture system audio. Check that a playback device is available, then try again."@
    } else if contains_seq(lower, "screen"@) || contains_seq(lower, "shareable"@) || contains_seq(
        lower,
        "display"@,
    ) {
        "BellaNote needs Screen Recording permission to capture system audio. Check System Settings → Privacy & Security."@
    } else {
        "BellaNote couldn’t start recording."@
    }
}

/// What the user is told for a capture error whose lowercase text is `lower`.
pub fn capture_error_for_lowercase(lower: &str, os: HostOs) -> (m: String)
    ensures
        m@ == capture_error_spec(lower@, os),
{
    let l = to_chars(lower);
    if contains_text(&l, "no default input") || contains_text(&l, "microphone") {
        if os == HostOs::Windows {
            return "BellaNote couldn’t use the microphone. Check Settings → Privacy & security → Microphone.".to_owned();
        } else {
            return "BellaNote couldn’t use the microphone. Check System Settings → Privacy & Security.".to_owned();
        }
    }
    if contains_text(&l, "wasapi") || contains_text(&l, "loopback") || contains_text(
        &l,
        "playback device",
    ) || contains_text(&l, "render") {
        return "BellaNote couldn’t capture system audio. Check that a playback device is available, then try again.".to_owned();
    }
    if contains_text(&l, "screen") || contains_text(&l, "shareable") || contains_text(&l, "display") {
        return "BellaNote needs Screen Recording permission to capture system audio. Check System Settings → Privacy & Security.".to_owned();
    }
    "BellaNote couldn’t start recording.".to_owned()
}

/// What the user is told when capture failed with error `text`.
pub fn human_capture_error(text: &str, os: HostOs) -> (m: String)
    ensures
        m@ == capture_error_spec(unicode_lowercase(text@), os),
{
    let lower = to_lowercase(text);
    capture_error_for_lowercase(lower.as_str(), os)
}

// ---------------------------------------------------------------------------
// Chunking for live transcription
// ---------------------------------------------------------------------------

/// How a recording is cut for live transcription: every `tick_secs` seconds
/// up to `chunk_samples` samples are taken, and a chunk is transcribed once it
/// holds `min_chunk_samples`.
pub struct ChunkPlan {
    pub tick_secs: u64,
    pub chunk_samples: usize,
    pub min_chunk_samples: usize,
}

/// Three-second chunks for the microphone, ten-second chunks for system audio.
pub fn chunk_plan(mode: CaptureMode) -> (p: ChunkPlan)
    ensures
        mode == CaptureMode::Voice ==> p.tick_secs == 3 && p.chunk_samples == 48_000
            && p.min_chunk_samples == 8_000,
        mode == CaptureMode::SystemAudio ==> p.tick_secs == 10 && p.chunk_samples == 160_000
            && p.min_chunk_samples == 4_000,
{
    match mode {
        CaptureMode::Voice => ChunkPlan {
            tick_secs: 3,
            chunk_samples: SAMPLE_RATE as usize * 3,
            min_chunk_samples: 8_000,
        },
        CaptureMode::SystemAudio => ChunkPlan {
            tick_secs: 10,
            chunk_samples: SAMPLE_RATE as usize * 10,
            min_chunk_samples: 4_000,
        },
    }
}

/// Whether a chunk of `n` samples is transcribed: once it reaches the
/// minimum, or, when the recording is stopping, once it holds more than a
/// tenth of a second.
pub fn chunk_is_enough(n: usize, cancelled: bool, min_chunk_samples: usize) -> (b: bool)
    ensures
        b == if cancelled {
            n > 1_600
        } else {
            n >= min_chunk_samples
        },
{
    if cancelled {
        n > 1_600
    } else {
        n >= min_chunk_samples
    }
}

/// Milliseconds of `samples` at 16 kHz, computed in 64-bit arithmetic.
pub open spec fn samples_ms(samples: u64) -> u64 {
    (vstd::wrapping::u64_specs::wrapping_mul(samples, 1000) / 16_000) as u64
}

/// The latest end of the segments, or `default` when there are none.
pub open spec fn max_end_or(segs: Seq<SegmentView>, default: i64) -> i64 {
    if segs.len() == 0 {
        default
    } else {
        max_end(segs)
    }
}

/// A segment moved later by `off` milliseconds.
pub open spec fn shifted(s: SegmentView, off: i64) -> SegmentView {
    (
        s.0,
        vstd::wrapping::i64_specs::wrapping_add(s.1, off),
        vstd::wrapping::i64_specs::wrapping_add(s.2, off),
    )
}

/// The transcript of a running recording: its segments so far, and how many
/// samples the stream has passed.
pub struct LiveTranscript {
    segments: Vec<TranscriptSegment>,
    offset_samples: u64,
}

pub struct LiveTranscriptView {
    pub segments: Seq<SegmentView>,
    pub offset_samples: u64,
}

impl View for LiveTranscript {
    type V = LiveTranscriptView;

    closed spec fn view(&self) -> LiveTranscriptView {
        LiveTranscriptView { segments: seg_views(self.segments@), offset_samples: self.offset_samples }
    }
}

impl LiveTranscript {
    /// Nothing transcribed, at the start of the stream.
    pub fn new() -> (t: LiveTranscript)
        ensures
            t@.segments.len() == 0,
            t@.offset_samples == 0,
    {
        let t = LiveTranscript { segments: Vec::new(), offset_samples: 0 };
        assert(seg_views(t.segments@) =~= Seq::<SegmentView>::empty());
        t
    }

    /// Passes a chunk of `n` samples. When it is transcribed, gives the moment
    /// it starts at, in milliseconds.
    pub fn take_chunk(&mut self, n: usize, transcribed: bool) -> (start_ms: Option<i64>)
        ensures
            final(self)@.segments == old(self)@.segments,
            final(self)@.offset_samples == vstd::wrapping::u64_specs::wrapping_add(
                old(self)@.offset_samples,
                n as u64,
            ),
            start_ms == if transcribed {
                Some(samples_ms(old(self)@.offset_samples) as i64)
            } else {
                None::<i64>
            },
    {
        let start = self.offset_samples.wrapping_mul(1000) / 16_000;
        self.offset_samples = self.offset_samples.wrapping_add(n as u64);
        if transcribed {
            Some(start as i64)
        } else {
            None
        }
    }

    /// Adds what a chunk starting at `start_ms` gave, moved to its place in
    /// the recording.
    pub fn add_segments(&mut self, new_segments: Vec<TranscriptSegment>, start_ms: i64)
        ensures
            final(self)@.offset_samples == old(self)@.offset_samples,
            final(self)@.segments == old(self)@.segments + seg_views(new_segments@).map_values(
                |s: SegmentView| shifted(s, start_ms),
            ),
    {
        let ghost before = seg_views(self.segments@);
        let ghost added = seg_views(new_segments@);
        let mut i: usize = 0;
        while i < new_segments.len()
            invariant
                0 <= i <= new_segments@.len(),
                added == seg_views(new_segments@),
                self.offset_samples == old(self).offset_samples,
                seg_views(self.segments@) == before + added.take(i as int).map_values(
                    |s: SegmentView| shifted(s, start_ms),
                ),
            decreases new_segments.len() - i,
        {
            let s = TranscriptSegment {
                text: new_segments[i].text.clone(),
                start_ms: new_segments[i].start_ms.wrapping_add(start_ms),
                end_ms: new_segments[i].end_ms.wrapping_add(start_ms),
            };
            let ghost prev = self.segments@;
            self.segments.push(s);
            assert(seg_views(self.segments@) == seg_views(prev).push(s@));
            assert(added.take(i + 1) == added.take(i as int).push(added[i as int]));
            i = i + 1;
        }
        assert(added.take(new_segments@.len() as int) == added);
    }

    /// The segments so far.
    pub fn segments(&self) -> (s: &Vec<TranscriptSegment>)
        ensures
            seg_views(s@) == self@.segments,
    {
        &self.segments
    }

    /// The text so far: the segments' texts joined by spaces.
    pub fn text(&self) -> (t: String)
        ensures
            t@ == full_text(self@.segments),
    {
        let mut pieces: Vec<Vec<char>> = Vec::new();
        let mut i: usize = 0;
        while i < self.segments.len()
            invariant
                0 <= i <= self.segments@.len(),
                views(pieces@) == seg_views(self.segments@).take(i as int).map_values(
                    |s: SegmentView| s.0,
                ),
            decreases self.segments.len() - i,
        {
            let t = to_chars(self.segments[i].text.as_str());
            let ghost old_p = pieces@;
            pieces.push(t);
            assert(views(pieces@) == views(old_p).push(t@));
            assert(seg_views(self.segments@).take(i + 1).map_values(|s: SegmentView| s.0)
                =~= seg_views(self.segments@).take(i as int).map_values(|s: SegmentView| s.0).push(
                self.segments@[i as int].text@,
            ));
            i = i + 1;
        }
        assert(seg_views(self.segments@).take(self.segments@.len() as int) == seg_views(
            self.segments@,
        ));
        let sep = vec![' '];
        assert(sep@ =~= seq![' ']);
        from_chars(join_chars(&pieces, &sep).as_slice())
    }

    fn max_end_or_exec(&self, default: i64) -> (m: i64)
        ensures
            m == max_end_or(self@.segments, default),
    {
        if self.segments.len() == 0 {
            default
        } else {
            max_end_ms(&self.segments)
        }
    }

    /// How long the live transcript says the recording is: the latest segment
    /// end, or the stream position when there are no segments.
    pub fn live_duration_ms(&self) -> (d: i64)
        ensures
            d == max_end_or(self@.segments, samples_ms(self@.offset_samples) as i64),
    {
        let pos = (self.offset_samples.wrapping_mul(1000) / 16_000) as i64;
        self.max_end_or_exec(pos)
    }

    /// How long the finished recording is: the stream position, or the latest
    /// segment end when that is later.
    pub fn final_duration_ms(&self) -> (d: i64)
        ensures
            ({
                let pos = samples_ms(self@.offset_samples) as i64;
                let m = max_end_or(self@.segments, pos);
                d == if pos > m {
                    pos
                } else {
                    m
                }
            }),
    {
        let pos = (self.offset_samples.wrapping_mul(1000) / 16_000) as i64;
        let m = self.max_end_or_exec(pos);
        if pos > m {
            pos
        } else {
            m
        }
    }
}

// ---------------------------------------------------------------------------
// Status
// ---------------------------------------------------------------------------

/// The running recording, as the status shows it.
pub struct SessionInfo {
    pub artifact_id: String,
    pub meeting_group_id: String,
    pub source: String,
    pub started_at_unix_ms: i64,
}

/// Whether a recording runs, and which.
pub struct RecordingStatus {
    pub active: bool,
    pub artifact_id: Option<String>,
    pub meeting_group_id: Option<String>,
    pub source: Option<String>,
    pub started_at_unix_ms: Option<i64>,
    pub input_label: Option<String>,
}

/// The status for the running recording, if any.
pub fn status(session: Option<&SessionInfo>) -> (s: RecordingStatus)
    ensures
        s.active == session.is_some(),
        s.input_label is None,
        match session {
            Some(info) => s.artifact_id == Some(info.artifact_id) && s.meeting_group_id == Some(
                info.meeting_group_id,
            ) && s.source == Some(info.source) && s.started_at_unix_ms == Some(
                info.started_at_unix_ms,
            ),
            None => s.artifact_id is None && s.meeting_group_id is None && s.source is None
                && s.started_at_unix_ms is None,
        },
{
    match session {
        Some(info) => RecordingStatus {
            active: true,
            artifact_id: Some(info.artifact_id.clone()),
            meeting_group_id: Some(info.meeting_group_id.clone()),
            source: Some(info.source.clone()),
            started_at_unix_ms: Some(info.started_at_unix_ms),
            input_label: None,
        },
        None => RecordingStatus {
            active: false,
            artifact_id: None,
            meeting_group_id: None,
            source: None,
            started_at_unix_ms: None,
            input_label: None,
        },
    }
}

/// The result of starting a recording: its artifact and its input's name.
pub struct StartRecordingResult {
    pub artifact: Artifact,
    pub input_label: String,
}

// ---------------------------------------------------------------------------
// The end of a recording
// ---------------------------------------------------------------------------

/// The store after a recording's last transcription: ready with its
/// transcript when that has text, failed with a reason when it is blank.
pub open spec fn finish_recording_spec(
    v: DbView,
    id: Seq<char>,
    transcript: Seq<char>,
    segments_json: Seq<char>,
    duration_ms: i64,
    whisper_model: Seq<char>,
) -> DbView {
    if trim(transcript).len() == 0 {
        set_status_spec(v, id, "failed"@, no_text_message())
    } else {
        set_transcript_spec(v, id, transcript, segments_json, duration_ms, whisper_model)
    }
}

/// Stores what the recording's transcription gave: its transcript, and the
/// artifact ready; or, when the transcript is blank, the artifact failed so
/// that it can be retried.
pub fn finish_recording(
    db: &mut Db,
    id: &str,
    transcript: &str,
    segments_json: &str,
    duration_ms: i64,
    whisper_model: &str,
)
    requires
        old(db).wf(),
    ensures
        final(db).wf(),
        final(db)@ == finish_recording_spec(
            old(db)@,
            id@,
            transcript@,
            segments_json@,
            duration_ms,
            whisper_model@,
        ),
{
    if is_blank(&to_chars(transcript)) {
        let _ = db.set_artifact_status(
            id,
            "failed",
            "Transcription didn’t finish. The recording is saved — you can try again.",
        );
    } else {
        let _ = db.set_artifact_transcript(id, transcript, segments_json, duration_ms, whisper_model);
    }
}

// ---------------------------------------------------------------------------
// Clock
// ---------------------------------------------------------------------------

/// A moment of the system clock (`std::time::SystemTime`).
#[verifier::external_type_specification]
#[verifier::external_body]
pub struct ExSystemTime(std::time::SystemTime);

/// `SystemTime::now`: the clock's current time; nothing is claimed of it.
#[verifier::external_body]
fn system_now() -> (t: std::time::SystemTime) {
    std::time::SystemTime::now()
}

/// `SystemTime::duration_since` the Unix epoch; fails when the clock is set
/// before it. Nothing is claimed of the outcome.
#[verifier::external_body]
fn since_unix_epoch(t: &std::time::SystemTime) -> (d: Option<std::time::Duration>) {
    t.duration_since(std::time::UNIX_EPOCH).ok()
}

/// `Duration::as_millis`: the whole milliseconds of a duration. Nothing is
/// claimed of the value, which comes from the clock.
#[verifier::external_body]
fn duration_millis(d: &std::time::Duration) -> (ms: u128) {
    d.as_millis()
}

/// Milliseconds since the Unix epoch, truncated to 64 bits as an `as` cast
/// does; 0 when the clock is set before the epoch.
pub fn unix_ms_from(millis: Option<u128>) -> (ms: i64)
    ensures
        ms == match millis {
            Some(m) => m as i64,
            None => 0i64,
        },
{
    match millis {
        Some(m) => m as i64,
        None => 0,
    }
}

/// The current time in milliseconds since the Unix epoch, 0 when the clock is
/// set before the epoch. It reads the clock; nothing is claimed of its value.
pub fn now_unix_ms() -> (ms: i64) {
    let t = system_now();
    let millis = match since_unix_epoch(&t) {
        Some(d) => Some(duration_millis(&d)),
        None => None,
    };
    unix_ms_from(millis)
}

} // verus!
